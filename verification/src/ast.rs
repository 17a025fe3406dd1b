//! The data model shared by the parser, the validator and the generator: a
//! program is a name, an ordered list of account definitions and an ordered
//! list of instructions, all immutable once built.

use vstd::prelude::*;

verus! {

/// A whole source unit: name, account definitions and instructions, in
/// declaration order.
#[derive(Debug, PartialEq)]
pub struct Program {
    pub name: String,
    pub accounts: Vec<AccountDef>,
    pub instructions: Vec<Instruction>,
}

/// A persistent on-chain data record with a declared field layout.
#[derive(Debug, PartialEq)]
pub struct AccountDef {
    pub name: String,
    pub fields: Vec<Field>,
}

/// One field of an account definition.
#[derive(Debug, PartialEq)]
pub struct Field {
    pub name: String,
    pub ty: Type,
}

/// The closed set of field types: a public key, fixed-width integers,
/// booleans, strings, and recursive vectors and options.
#[derive(Debug, PartialEq)]
pub enum Type {
    Pubkey,
    U8,
    U16,
    U32,
    U64,
    I8,
    I16,
    I32,
    I64,
    Bool,
    String,
    Vec(Box<Type>),
    Option(Box<Type>),
}

/// The characters of the target-language type a [`Type`] maps to.
pub open spec fn rust_type_view(t: Type) -> Seq<char>
    decreases t,
{
    match t {
        Type::Pubkey => "Pubkey"@,
        Type::U8 => "u8"@,
        Type::U16 => "u16"@,
        Type::U32 => "u32"@,
        Type::U64 => "u64"@,
        Type::I8 => "i8"@,
        Type::I16 => "i16"@,
        Type::I32 => "i32"@,
        Type::I64 => "i64"@,
        Type::Bool => "bool"@,
        Type::String => "String"@,
        Type::Vec(inner) => "Vec<"@ + rust_type_view(*inner) + ">"@,
        Type::Option(inner) => "Option<"@ + rust_type_view(*inner) + ">"@,
    }
}

/// The characters of the interface-description type a [`Type`] maps to:
/// the same table with lower-case names.
pub open spec fn anchor_type_view(t: Type) -> Seq<char>
    decreases t,
{
    match t {
        Type::Pubkey => "pubkey"@,
        Type::U8 => "u8"@,
        Type::U16 => "u16"@,
        Type::U32 => "u32"@,
        Type::U64 => "u64"@,
        Type::I8 => "i8"@,
        Type::I16 => "i16"@,
        Type::I32 => "i32"@,
        Type::I64 => "i64"@,
        Type::Bool => "bool"@,
        Type::String => "string"@,
        Type::Vec(inner) => "vec<"@ + anchor_type_view(*inner) + ">"@,
        Type::Option(inner) => "option<"@ + anchor_type_view(*inner) + ">"@,
    }
}

impl Type {
    /// The target-language type this type maps to, through the fixed
    /// recursive table.
    pub fn to_rust_type(&self) -> (r: String)
        ensures
            r@ == rust_type_view(*self),
        decreases *self,
    {
        match self {
            Type::Pubkey => String::from_str("Pubkey"),
            Type::U8 => String::from_str("u8"),
            Type::U16 => String::from_str("u16"),
            Type::U32 => String::from_str("u32"),
            Type::U64 => String::from_str("u64"),
            Type::I8 => String::from_str("i8"),
            Type::I16 => String::from_str("i16"),
            Type::I32 => String::from_str("i32"),
            Type::I64 => String::from_str("i64"),
            Type::Bool => String::from_str("bool"),
            Type::String => String::from_str("String"),
            Type::Vec(inner) => {
                let mut s = String::from_str("Vec<");
                let t = inner.to_rust_type();
                s.append(t.as_str());
                s.append(">");
                proof {
                    assert(s@ =~= rust_type_view(*self));
                }
                s
            },
            Type::Option(inner) => {
                let mut s = String::from_str("Option<");
                let t = inner.to_rust_type();
                s.append(t.as_str());
                s.append(">");
                proof {
                    assert(s@ =~= rust_type_view(*self));
                }
                s
            },
        }
    }

    /// The interface-description type this type maps to.
    pub fn to_anchor_type(&self) -> (r: String)
        ensures
            r@ == anchor_type_view(*self),
        decreases *self,
    {
        match self {
            Type::Pubkey => String::from_str("pubkey"),
            Type::U8 => String::from_str("u8"),
            Type::U16 => String::from_str("u16"),
            Type::U32 => String::from_str("u32"),
            Type::U64 => String::from_str("u64"),
            Type::I8 => String::from_str("i8"),
            Type::I16 => String::from_str("i16"),
            Type::I32 => String::from_str("i32"),
            Type::I64 => String::from_str("i64"),
            Type::Bool => String::from_str("bool"),
            Type::String => String::from_str("string"),
            Type::Vec(inner) => {
                let mut s = String::from_str("vec<");
                let t = inner.to_anchor_type();
                s.append(t.as_str());
                s.append(">");
                proof {
                    assert(s@ =~= anchor_type_view(*self));
                }
                s
            },
            Type::Option(inner) => {
                let mut s = String::from_str("option<");
                let t = inner.to_anchor_type();
                s.append(t.as_str());
                s.append(">");
                proof {
                    assert(s@ =~= anchor_type_view(*self));
                }
                s
            },
        }
    }
}

/// One handler: its name doubles as the handler name and the stem of the
/// derived context-struct name.
#[derive(Debug, PartialEq)]
pub struct Instruction {
    pub name: String,
    pub params: Vec<Param>,
    pub body: Vec<Statement>,
}

/// One declared parameter of an instruction.
#[derive(Debug, PartialEq)]
pub struct Param {
    pub name: String,
    pub ty: ParamType,
}

/// The kind of an instruction parameter: signers and account references
/// become context fields, every other kind becomes a handler argument.
#[derive(Debug, PartialEq)]
pub enum ParamType {
    Signer,
    /// A reference to a declared account definition, by name.
    Account(String),
    Pubkey,
    U8,
    U16,
    U32,
    U64,
    I8,
    I16,
    I32,
    I64,
    Bool,
    String,
}

/// The characters of the target-language type a [`ParamType`] maps to.
pub open spec fn param_type_view(t: ParamType) -> Seq<char> {
    match t {
        ParamType::Signer => "Signer<'_>"@,
        ParamType::Account(name) => "Account<'_, "@ + name@ + ">"@,
        ParamType::Pubkey => "Pubkey"@,
        ParamType::U8 => "u8"@,
        ParamType::U16 => "u16"@,
        ParamType::U32 => "u32"@,
        ParamType::U64 => "u64"@,
        ParamType::I8 => "i8"@,
        ParamType::I16 => "i16"@,
        ParamType::I32 => "i32"@,
        ParamType::I64 => "i64"@,
        ParamType::Bool => "bool"@,
        ParamType::String => "String"@,
    }
}

impl ParamType {
    /// The target-language type this parameter kind maps to.
    pub fn to_rust_type(&self) -> (r: String)
        ensures
            r@ == param_type_view(*self),
    {
        match self {
            ParamType::Signer => String::from_str("Signer<'_>"),
            ParamType::Account(name) => {
                let mut s = String::from_str("Account<'_, ");
                s.append(name.as_str());
                s.append(">");
                proof {
                    assert(s@ =~= param_type_view(*self));
                }
                s
            },
            ParamType::Pubkey => String::from_str("Pubkey"),
            ParamType::U8 => String::from_str("u8"),
            ParamType::U16 => String::from_str("u16"),
            ParamType::U32 => String::from_str("u32"),
            ParamType::U64 => String::from_str("u64"),
            ParamType::I8 => String::from_str("i8"),
            ParamType::I16 => String::from_str("i16"),
            ParamType::I32 => String::from_str("i32"),
            ParamType::I64 => String::from_str("i64"),
            ParamType::Bool => String::from_str("bool"),
            ParamType::String => String::from_str("String"),
        }
    }
}

/// One statement of an instruction body.
#[derive(Debug, PartialEq)]
pub enum Statement {
    /// Initialise the account held in `var_name`, of account type
    /// `account_name`, paid for by `payer`, optionally co-signed.
    InitAccount { var_name: String, account_name: String, payer: String, signer: Option<String> },
    /// Assert a condition, with an optional message attached verbatim.
    Require { condition: Expr, message: Option<String> },
    /// Assign `value` to `target`.
    Assign { target: Expr, value: Expr },
    /// Evaluate an expression for its effect.
    Expr(Expr),
}

/// An expression of the source language.
#[derive(Debug, PartialEq)]
pub enum Expr {
    Ident(String),
    FieldAccess { object: Box<Expr>, field: String },
    Literal(Literal),
    BinaryOp { op: BinOp, left: Box<Expr>, right: Box<Expr> },
    UnaryOp { op: UnOp, operand: Box<Expr> },
}

/// A literal value.
#[derive(Debug, PartialEq)]
pub enum Literal {
    Int(i64),
    UInt(u64),
    Bool(bool),
    String(String),
}

/// Whether two literals hold the same value, comparing strings by their
/// characters.
pub open spec fn literal_equiv(a: Literal, b: Literal) -> bool {
    match (a, b) {
        (Literal::Int(x), Literal::Int(y)) => x == y,
        (Literal::UInt(x), Literal::UInt(y)) => x == y,
        (Literal::Bool(x), Literal::Bool(y)) => x == y,
        (Literal::String(x), Literal::String(y)) => x@ == y@,
        _ => false,
    }
}

/// Whether two expressions are structurally equal, comparing names by their
/// characters.
pub open spec fn expr_equiv(a: Expr, b: Expr) -> bool
    decreases a,
{
    match (a, b) {
        (Expr::Ident(x), Expr::Ident(y)) => x@ == y@,
        (
            Expr::FieldAccess { object: ao, field: af },
            Expr::FieldAccess { object: bo, field: bf },
        ) => af@ == bf@ && expr_equiv(*ao, *bo),
        (Expr::Literal(la), Expr::Literal(lb)) => literal_equiv(la, lb),
        (
            Expr::BinaryOp { op: aop, left: al, right: ar },
            Expr::BinaryOp { op: bop, left: bl, right: br },
        ) => aop == bop && expr_equiv(*al, *bl) && expr_equiv(*ar, *br),
        (
            Expr::UnaryOp { op: aop, operand: ao },
            Expr::UnaryOp { op: bop, operand: bo },
        ) => aop == bop && expr_equiv(*ao, *bo),
        _ => false,
    }
}

impl Clone for Literal {
    /// A copy holding the same value.
    fn clone(&self) -> (r: Self)
        ensures
            literal_equiv(r, *self),
    {
        match self {
            Literal::Int(i) => Literal::Int(*i),
            Literal::UInt(u) => Literal::UInt(*u),
            Literal::Bool(b) => Literal::Bool(*b),
            Literal::String(s) => Literal::String(s.clone()),
        }
    }
}

impl Clone for Expr {
    /// A structurally equal copy.
    fn clone(&self) -> (r: Self)
        ensures
            expr_equiv(r, *self),
        decreases *self,
    {
        match self {
            Expr::Ident(name) => Expr::Ident(name.clone()),
            Expr::FieldAccess { object, field } => Expr::FieldAccess {
                object: Box::new((**object).clone()),
                field: field.clone(),
            },
            Expr::Literal(lit) => Expr::Literal(lit.clone()),
            Expr::BinaryOp { op, left, right } => Expr::BinaryOp {
                op: *op,
                left: Box::new((**left).clone()),
                right: Box::new((**right).clone()),
            },
            Expr::UnaryOp { op, operand } => Expr::UnaryOp {
                op: *op,
                operand: Box::new((**operand).clone()),
            },
        }
    }
}

/// A binary operator.
#[derive(Debug, Clone, Copy, PartialEq, Eq, Structural)]
pub enum BinOp {
    Add,
    Sub,
    Mul,
    Div,
    Mod,
    Eq,
    Ne,
    Lt,
    Le,
    Gt,
    Ge,
    And,
    Or,
}

/// A unary operator.
#[derive(Debug, Clone, Copy, PartialEq, Eq, Structural)]
pub enum UnOp {
    Not,
    Neg,
}

} // verus!
