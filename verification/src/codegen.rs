//! The generator: lowers a checked program to target-framework source text.
//! Emission order: one prelude import, one account-data declaration per
//! account definition, one program module holding one handler per
//! instruction, then one context struct per instruction.

use vstd::prelude::*;

use crate::ast::{
    anchor_type_view, expr_equiv, param_type_view, rust_type_view, AccountDef, BinOp, Expr, Field, Instruction,
    Literal, Param, ParamType, Program, Statement, Type, UnOp,
};
use crate::hir::Hir;
use crate::strings::{dec_digits, dec_int, i64_to_string, str_eq, u64_to_string};

verus! {

/// The serialized width charged for one field type: 32 for a public key, the
/// byte width for integers and booleans, a fixed placeholder for strings, and
/// a fixed header plus one element's width for vectors and options.
pub open spec fn type_size(t: Type) -> nat
    decreases t,
{
    match t {
        Type::Pubkey => 32,
        Type::U8 => 1,
        Type::U16 => 2,
        Type::U32 => 4,
        Type::U64 => 8,
        Type::I8 => 1,
        Type::I16 => 2,
        Type::I32 => 4,
        Type::I64 => 8,
        Type::Bool => 1,
        Type::String => 8,
        Type::Vec(inner) => 8 + type_size(*inner),
        Type::Option(inner) => 1 + type_size(*inner),
    }
}

/// The summed widths of a field list.
pub open spec fn fields_size(fields: Seq<Field>) -> nat
    decreases fields.len(),
{
    if fields.len() == 0 {
        0
    } else {
        fields_size(fields.drop_last()) + type_size(fields.last().ty)
    }
}

/// A sum clamped to what a machine word can carry.
pub open spec fn capped(n: nat) -> nat {
    if n > u64::MAX as nat {
        u64::MAX as nat
    } else {
        n
    }
}

fn sat_add(a: u64, b: u64) -> (r: u64)
    ensures
        r as nat == capped(a as nat + b as nat),
{
    if a > u64::MAX - b {
        u64::MAX
    } else {
        a + b
    }
}

/// The serialized width charged for one field type, clamped to a machine
/// word; the width itself is [`type_size`].
pub fn calculate_type_size(ty: &Type) -> (r: u64)
    ensures
        r as nat == capped(type_size(*ty)),
    decreases *ty,
{
    match ty {
        Type::Pubkey => 32,
        Type::U8 => 1,
        Type::U16 => 2,
        Type::U32 => 4,
        Type::U64 => 8,
        Type::I8 => 1,
        Type::I16 => 2,
        Type::I32 => 4,
        Type::I64 => 8,
        Type::Bool => 1,
        Type::String => 8,
        Type::Vec(inner) => sat_add(8, calculate_type_size(inner)),
        Type::Option(inner) => sat_add(1, calculate_type_size(inner)),
    }
}

/// Every field type is charged at least one unit, so adding a field always
/// enlarges an account.
pub proof fn lemma_type_size_at_least_one(t: Type)
    ensures
        type_size(t) >= 1,
    decreases t,
{
    match t {
        Type::Vec(inner) => lemma_type_size_at_least_one(*inner),
        Type::Option(inner) => lemma_type_size_at_least_one(*inner),
        _ => {},
    }
}

/// The summed width of two field lists laid end to end is the sum of their
/// widths.
pub proof fn lemma_fields_size_concat(a: Seq<Field>, b: Seq<Field>)
    ensures
        fields_size(a + b) == fields_size(a) + fields_size(b),
    decreases b.len(),
{
    if b.len() == 0 {
        assert(a + b =~= a);
    } else {
        lemma_fields_size_concat(a, b.drop_last());
        assert((a + b).drop_last() =~= a + b.drop_last());
        assert((a + b).last() == b.last());
    }
}

proof fn lemma_fields_size_singleton(f: Field)
    ensures
        fields_size(seq![f]) == type_size(f.ty),
{
    assert(seq![f].drop_last() =~= Seq::<Field>::empty());
    assert(fields_size(Seq::<Field>::empty()) == 0);
    assert(seq![f].last() == f);
}

/// Law: the size function grows strictly with field count — appending any
/// field to a layout strictly enlarges it.
pub proof fn lemma_size_strictly_increasing_in_fields(fields: Seq<Field>, f: Field)
    ensures
        fields_size(fields.push(f)) > fields_size(fields),
{
    assert(fields.push(f).drop_last() =~= fields);
    lemma_type_size_at_least_one(f.ty);
}

/// Law: the size function grows strictly with field width — widening one
/// field of a layout strictly enlarges it.
pub proof fn lemma_size_strictly_increasing_in_width(fields: Seq<Field>, i: int, f: Field)
    requires
        0 <= i < fields.len(),
        type_size(f.ty) > type_size(fields[i].ty),
    ensures
        fields_size(fields.update(i, f)) > fields_size(fields),
{
    let before = fields.take(i);
    let after = fields.skip(i + 1);
    assert(fields =~= before + seq![fields[i]] + after);
    assert(fields.update(i, f) =~= before + seq![f] + after);
    lemma_fields_size_concat(before + seq![fields[i]], after);
    lemma_fields_size_concat(before, seq![fields[i]]);
    lemma_fields_size_concat(before + seq![f], after);
    lemma_fields_size_concat(before, seq![f]);
    lemma_fields_size_singleton(fields[i]);
    lemma_fields_size_singleton(f);
}

/// The summed width is unchanged by removing an element and adding its width
/// back separately.
proof fn lemma_fields_size_remove(fields: Seq<Field>, i: int)
    requires
        0 <= i < fields.len(),
    ensures
        fields_size(fields) == fields_size(fields.remove(i)) + type_size(fields[i].ty),
{
    let before = fields.take(i);
    let after = fields.skip(i + 1);
    assert(fields =~= before + seq![fields[i]] + after);
    assert(fields.remove(i) =~= before + after);
    lemma_fields_size_concat(before + seq![fields[i]], after);
    lemma_fields_size_concat(before, seq![fields[i]]);
    lemma_fields_size_concat(before, after);
    lemma_fields_size_singleton(fields[i]);
}

/// Law: the size function is invariant to field order — two layouts holding
/// the same fields, however arranged, have the same size.
pub proof fn lemma_size_order_invariant(a: Seq<Field>, b: Seq<Field>)
    requires
        a.to_multiset() == b.to_multiset(),
    ensures
        fields_size(a) == fields_size(b),
    decreases a.len(),
{
    broadcast use vstd::seq_lib::group_to_multiset_ensures;

    if a.len() == 0 {
        assert(b.to_multiset().len() == 0);
        assert(b.len() == 0);
    } else {
        let last = a.last();
        assert(a.to_multiset().count(last) > 0) by {
            assert(a.contains(last));
        }
        assert(b.contains(last)) by {
            assert(b.to_multiset().count(last) > 0);
        }
        let i = choose|i: int| 0 <= i < b.len() && b[i] == last;
        assert(a.drop_last().to_multiset() =~= b.remove(i).to_multiset()) by {
            assert(a =~= a.drop_last().push(last));
            assert(a.to_multiset() == a.drop_last().push(last).to_multiset());
            assert(a.drop_last().push(last).to_multiset() =~= a.drop_last().to_multiset().insert(
                last,
            ));
            assert(b.remove(i).to_multiset() =~= b.to_multiset().remove(b[i]));
            assert(a.drop_last().to_multiset() =~= a.to_multiset().remove(last));
        }
        lemma_size_order_invariant(a.drop_last(), b.remove(i));
        lemma_fields_size_remove(b, i);
    }
}

/// The name of what [`str::to_lowercase`] returns: a lower-case mapping that
/// depends on the characters alone.
pub uninterp spec fn lower_of(s: Seq<char>) -> Seq<char>;

/// Relies on str::to_lowercase from std, for the generated module name.
#[verifier::external_body]
fn to_lowercase(s: &str) -> (r: String)
    ensures
        r@ == lower_of(s@),
{
    s.to_lowercase()
}

/// The operator token a binary operator lowers to.
pub open spec fn binop_code(op: BinOp) -> Seq<char> {
    match op {
        BinOp::Add => "+"@,
        BinOp::Sub => "-"@,
        BinOp::Mul => "*"@,
        BinOp::Div => "/"@,
        BinOp::Mod => "%"@,
        BinOp::Eq => "=="@,
        BinOp::Ne => "!="@,
        BinOp::Lt => "<"@,
        BinOp::Le => "<="@,
        BinOp::Gt => ">"@,
        BinOp::Ge => ">="@,
        BinOp::And => "&&"@,
        BinOp::Or => "||"@,
    }
}

/// The operator token a unary operator lowers to.
pub open spec fn unop_code(op: UnOp) -> Seq<char> {
    match op {
        UnOp::Not => "!"@,
        UnOp::Neg => "-"@,
    }
}

/// The text a literal lowers to: decimal digits for integers, the two
/// boolean words, and a string in quotes.
pub open spec fn literal_code(l: Literal) -> Seq<char> {
    match l {
        Literal::Int(i) => dec_int(i as int),
        Literal::UInt(u) => dec_digits(u as nat),
        Literal::Bool(b) => if b {
            "true"@
        } else {
            "false"@
        },
        Literal::String(s) => "\""@ + s@ + "\""@,
    }
}

/// The text an expression lowers to: a bare identifier resolves into the
/// enclosing context's account bag, field access and operators lower
/// structurally, and every binary operation is fully parenthesized.
pub open spec fn expr_code(e: Expr) -> Seq<char>
    decreases e,
{
    match e {
        Expr::Ident(name) => "ctx.accounts."@ + name@,
        Expr::FieldAccess { object, field } => expr_code(*object) + "."@ + field@,
        Expr::Literal(lit) => literal_code(lit),
        Expr::BinaryOp { op, left, right } => "("@ + expr_code(*left) + " "@ + binop_code(op)
            + " "@ + expr_code(*right) + ")"@,
        Expr::UnaryOp { op, operand } => unop_code(op) + expr_code(*operand),
    }
}

/// The handler text a statement lowers to. Account initialisation emits no
/// handler code: its effect is carried by the context struct alone.
pub open spec fn statement_code(s: Statement) -> Seq<char> {
    match s {
        Statement::InitAccount { .. } => Seq::<char>::empty(),
        Statement::Require { condition, message } => match message {
            Some(m) => "        require!("@ + expr_code(condition) + ", "@ + m@ + ");\n"@,
            None => "        require!("@ + expr_code(condition) + ");\n"@,
        },
        Statement::Assign { target, value } => "        "@ + expr_code(target) + " = "@
            + expr_code(value) + ";\n"@,
        Statement::Expr(e) => "        "@ + expr_code(e) + ";\n"@,
    }
}

/// The declaration line of one account field.
pub open spec fn field_decl_code(f: Field) -> Seq<char> {
    "    pub "@ + f.name@ + ": "@ + rust_type_view(f.ty) + ",\n"@
}

/// The declaration lines of an account's fields, in declared order.
pub open spec fn fields_decl_code(fields: Seq<Field>) -> Seq<char>
    decreases fields.len(),
{
    if fields.len() == 0 {
        Seq::<char>::empty()
    } else {
        fields_decl_code(fields.drop_last()) + field_decl_code(fields.last())
    }
}

/// The full declaration of one account data struct.
pub open spec fn account_decl_code(a: AccountDef) -> Seq<char> {
    "#[account]\npub struct "@ + a.name@ + " {\n"@ + fields_decl_code(a.fields@) + "}\n\n"@
}

/// The account declarations of a program, in declared order.
pub open spec fn accounts_code(accounts: Seq<AccountDef>) -> Seq<char>
    decreases accounts.len(),
{
    if accounts.len() == 0 {
        Seq::<char>::empty()
    } else {
        accounts_code(accounts.drop_last()) + account_decl_code(accounts.last())
    }
}

/// Whether a parameter becomes a context field rather than a handler
/// argument.
pub open spec fn is_context_param(p: Param) -> bool {
    p.ty is Signer || p.ty is Account
}

/// The handler argument a parameter lowers to: nothing for signers and
/// account references, one typed argument line for every other kind.
pub open spec fn handler_param_code(p: Param) -> Seq<char> {
    if is_context_param(p) {
        Seq::<char>::empty()
    } else {
        "        "@ + p.name@ + ": "@ + param_type_view(p.ty) + ",\n"@
    }
}

/// The handler argument lines of a parameter list, in declared order.
pub open spec fn handler_params_code(ps: Seq<Param>) -> Seq<char>
    decreases ps.len(),
{
    if ps.len() == 0 {
        Seq::<char>::empty()
    } else {
        handler_params_code(ps.drop_last()) + handler_param_code(ps.last())
    }
}

/// The lowered statements of a handler body, in order.
pub open spec fn body_code(body: Seq<Statement>) -> Seq<char>
    decreases body.len(),
{
    if body.len() == 0 {
        Seq::<char>::empty()
    } else {
        body_code(body.drop_last()) + statement_code(body.last())
    }
}

/// The full text of one instruction handler.
pub open spec fn handler_code(i: Instruction) -> Seq<char> {
    "    pub fn "@ + i.name@ + "(\n        ctx: Context<"@ + i.name@ + "Context>,\n"@
        + handler_params_code(i.params@) + "    ) -> Result<()> {\n"@ + body_code(i.body@)
        + "        Ok(())\n    }\n\n"@
}

/// The handlers of a program, in declared order.
pub open spec fn handlers_code(instrs: Seq<Instruction>) -> Seq<char>
    decreases instrs.len(),
{
    if instrs.len() == 0 {
        Seq::<char>::empty()
    } else {
        handlers_code(instrs.drop_last()) + handler_code(instrs.last())
    }
}

/// The payer of the first account-initialisation statement naming `name`,
/// if any.
pub open spec fn first_init_payer(body: Seq<Statement>, name: Seq<char>) -> Option<Seq<char>>
    decreases body.len(),
{
    if body.len() == 0 {
        None
    } else {
        match body[0] {
            Statement::InitAccount { var_name, payer, .. } => if var_name@ == name {
                Some(payer@)
            } else {
                first_init_payer(body.drop_first(), name)
            },
            _ => first_init_payer(body.drop_first(), name),
        }
    }
}

/// The fields of the first account definition named `name`, if any.
pub open spec fn find_account_fields(accounts: Seq<AccountDef>, name: Seq<char>) -> Option<
    Seq<Field>,
>
    decreases accounts.len(),
{
    if accounts.len() == 0 {
        None
    } else if accounts[0].name@ == name {
        Some(accounts[0].fields@)
    } else {
        find_account_fields(accounts.drop_first(), name)
    }
}

/// The space annotation of an initialised account: a fixed record-tag
/// overhead of 8 plus the summed field widths of the referenced account
/// definition, clamped to a machine word; 8 alone when no definition of that
/// name exists.
pub open spec fn space_of(accounts: Seq<AccountDef>, name: Seq<char>) -> nat {
    match find_account_fields(accounts, name) {
        Some(fields) => capped(8 + fields_size(fields)),
        None => 8,
    }
}

/// The context-struct field a parameter lowers to: a mutable signer field, a
/// mutable or initialise-annotated account field, nothing for scalar kinds.
pub open spec fn context_field_code(p: Program, i: Instruction, param: Param) -> Seq<char> {
    match param.ty {
        ParamType::Signer => "    #[account(mut)]\n    pub "@ + param.name@
            + ": Signer<'info>,\n"@,
        ParamType::Account(acc_name) => (match first_init_payer(i.body@, param.name@) {
            Some(payer) => "    #[account(\n        init,\n        payer = "@ + payer
                + ",\n        space = "@ + dec_digits(space_of(p.accounts@, acc_name@))
                + "\n    )]\n"@,
            None => "    #[account(mut)]\n"@,
        }) + "    pub "@ + param.name@ + ": Account<'info, "@ + acc_name@ + ">,\n"@,
        _ => Seq::<char>::empty(),
    }
}

/// The context-struct fields of a parameter list, in declared order.
pub open spec fn context_fields_code(p: Program, i: Instruction, ps: Seq<Param>) -> Seq<char>
    decreases ps.len(),
{
    if ps.len() == 0 {
        Seq::<char>::empty()
    } else {
        context_fields_code(p, i, ps.drop_last()) + context_field_code(p, i, ps.last())
    }
}

/// The full declaration of one per-instruction context struct.
pub open spec fn context_struct_code(p: Program, i: Instruction) -> Seq<char> {
    "#[derive(Accounts)]\npub struct "@ + i.name@ + "Context<'info> {\n"@ + context_fields_code(
        p,
        i,
        i.params@,
    ) + "}\n\n"@
}

/// The context structs of a program, in declared order.
pub open spec fn contexts_code(p: Program, instrs: Seq<Instruction>) -> Seq<char>
    decreases instrs.len(),
{
    if instrs.len() == 0 {
        Seq::<char>::empty()
    } else {
        contexts_code(p, instrs.drop_last()) + context_struct_code(p, instrs.last())
    }
}

/// The whole generated compilation unit: prelude import, account structs,
/// program module, context structs.
pub open spec fn program_code(p: Program) -> Seq<char> {
    "use anchor_lang::prelude::*;\n\n"@ + accounts_code(p.accounts@) + "#[program]\npub mod "@
        + lower_of(p.name@) + " {\n    use super::*;\n\n"@ + handlers_code(p.instructions@)
        + "}\n\n"@ + contexts_code(p, p.instructions@)
}

fn binop_str(op: BinOp) -> (r: &'static str)
    ensures
        r@ == binop_code(op),
{
    match op {
        BinOp::Add => "+",
        BinOp::Sub => "-",
        BinOp::Mul => "*",
        BinOp::Div => "/",
        BinOp::Mod => "%",
        BinOp::Eq => "==",
        BinOp::Ne => "!=",
        BinOp::Lt => "<",
        BinOp::Le => "<=",
        BinOp::Gt => ">",
        BinOp::Ge => ">=",
        BinOp::And => "&&",
        BinOp::Or => "||",
    }
}

fn unop_str(op: UnOp) -> (r: &'static str)
    ensures
        r@ == unop_code(op),
{
    match op {
        UnOp::Not => "!",
        UnOp::Neg => "-",
    }
}

/// Lowers one expression to target text, resolving bare identifiers into the
/// enclosing context's account bag and parenthesizing every binary
/// operation.
pub fn generate_expr(expr: &Expr, context_name: &str) -> (r: String)
    ensures
        r@ == expr_code(*expr),
    decreases *expr,
{
    match expr {
        Expr::Ident(name) => {
            let mut s = String::from_str("ctx.accounts.");
            s.append(name.as_str());
            s
        },
        Expr::FieldAccess { object, field } => {
            let mut s = generate_expr(object, context_name);
            s.append(".");
            s.append(field.as_str());
            proof {
                assert(s@ =~= expr_code(*expr));
            }
            s
        },
        Expr::Literal(lit) => match lit {
            Literal::Int(i) => i64_to_string(*i),
            Literal::UInt(u) => u64_to_string(*u),
            Literal::Bool(b) => if *b {
                String::from_str("true")
            } else {
                String::from_str("false")
            },
            Literal::String(text) => {
                let mut s = String::from_str("\"");
                s.append(text.as_str());
                s.append("\"");
                proof {
                    assert(s@ =~= expr_code(*expr));
                }
                s
            },
        },
        Expr::BinaryOp { op, left, right } => {
            let mut s = String::from_str("(");
            let l = generate_expr(left, context_name);
            s.append(l.as_str());
            s.append(" ");
            s.append(binop_str(*op));
            s.append(" ");
            let rt = generate_expr(right, context_name);
            s.append(rt.as_str());
            s.append(")");
            proof {
                assert(s@ =~= expr_code(*expr));
            }
            s
        },
        Expr::UnaryOp { op, operand } => {
            let mut s = String::from_str(unop_str(*op));
            let o = generate_expr(operand, context_name);
            s.append(o.as_str());
            proof {
                assert(s@ =~= expr_code(*expr));
            }
            s
        },
    }
}

/// Lowers one statement to handler text: an assertion for `require`, a plain
/// assignment for `assign`, a bare expression statement, and nothing for
/// account initialisation.
pub fn generate_statement(stmt: &Statement, context_name: &str) -> (r: String)
    ensures
        r@ == statement_code(*stmt),
{
    match stmt {
        Statement::InitAccount { .. } => {
            let s = String::new();
            proof {
                assert(s@ =~= Seq::<char>::empty());
            }
            s
        },
        Statement::Require { condition, message } => {
            let mut s = String::from_str("        require!(");
            let c = generate_expr(condition, context_name);
            s.append(c.as_str());
            match message {
                Some(m) => {
                    s.append(", ");
                    s.append(m.as_str());
                },
                None => {},
            }
            s.append(");\n");
            proof {
                assert(s@ =~= statement_code(*stmt));
            }
            s
        },
        Statement::Assign { target, value } => {
            let mut s = String::from_str("        ");
            let t = generate_expr(target, context_name);
            s.append(t.as_str());
            s.append(" = ");
            let v = generate_expr(value, context_name);
            s.append(v.as_str());
            s.append(";\n");
            proof {
                assert(s@ =~= statement_code(*stmt));
            }
            s
        },
        Statement::Expr(e) => {
            let mut s = String::from_str("        ");
            let v = generate_expr(e, context_name);
            s.append(v.as_str());
            s.append(";\n");
            proof {
                assert(s@ =~= statement_code(*stmt));
            }
            s
        },
    }
}

fn find_init_payer(body: &Vec<Statement>, name: &str) -> (r: Option<String>)
    ensures
        r matches Some(p) ==> first_init_payer(body@, name@) == Some(p@),
        r is None ==> first_init_payer(body@, name@) is None,
{
    proof {
        assert(body@.skip(0) =~= body@);
    }
    let mut i: usize = 0;
    while i < body.len()
        invariant
            i <= body@.len(),
            first_init_payer(body@, name@) == first_init_payer(body@.skip(i as int), name@),
        decreases body@.len() - i,
    {
        proof {
            assert(body@.skip(i as int)[0] == body@[i as int]);
            assert(body@.skip(i as int).drop_first() =~= body@.skip(i as int + 1));
        }
        if let Statement::InitAccount { var_name, payer, .. } = &body[i] {
            if str_eq(var_name.as_str(), name) {
                return Some(payer.clone());
            }
        }
        i += 1;
    }
    proof {
        assert(body@.skip(body@.len() as int) =~= Seq::<Statement>::empty());
    }
    None
}

fn account_space(accounts: &Vec<AccountDef>, name: &str) -> (r: u64)
    ensures
        r as nat == space_of(accounts@, name@),
{
    proof {
        assert(accounts@.skip(0) =~= accounts@);
    }
    let mut k: usize = 0;
    while k < accounts.len()
        invariant
            k <= accounts@.len(),
            find_account_fields(accounts@, name@) == find_account_fields(
                accounts@.skip(k as int),
                name@,
            ),
        decreases accounts@.len() - k,
    {
        proof {
            assert(accounts@.skip(k as int)[0] == accounts@[k as int]);
            assert(accounts@.skip(k as int).drop_first() =~= accounts@.skip(k as int + 1));
        }
        if str_eq(accounts[k].name.as_str(), name) {
            let fields = &accounts[k].fields;
            let mut size: u64 = 8;
            let mut j: usize = 0;
            while j < fields.len()
                invariant
                    j <= fields@.len(),
                    size as nat == capped(8 + fields_size(fields@.take(j as int))),
                decreases fields@.len() - j,
            {
                let w = calculate_type_size(&fields[j].ty);
                size = sat_add(size, w);
                proof {
                    assert(fields@.take(j as int + 1).drop_last() =~= fields@.take(j as int));
                    assert(fields@.take(j as int + 1).last() == fields@[j as int]);
                }
                j += 1;
            }
            proof {
                assert(fields@.take(fields@.len() as int) =~= fields@);
            }
            return size;
        }
        k += 1;
    }
    proof {
        assert(accounts@.skip(accounts@.len() as int) =~= Seq::<AccountDef>::empty());
    }
    8
}

fn push_account_decl(out: &mut String, a: &AccountDef)
    ensures
        final(out)@ == old(out)@ + account_decl_code(*a),
{
    out.append("#[account]\npub struct ");
    out.append(a.name.as_str());
    out.append(" {\n");
    let ghost head = out@;
    let mut j: usize = 0;
    while j < a.fields.len()
        invariant
            j <= a.fields@.len(),
            out@ == head + fields_decl_code(a.fields@.take(j as int)),
        decreases a.fields@.len() - j,
    {
        let ty = a.fields[j].ty.to_rust_type();
        out.append("    pub ");
        out.append(a.fields[j].name.as_str());
        out.append(": ");
        out.append(ty.as_str());
        out.append(",\n");
        proof {
            assert(a.fields@.take(j as int + 1).drop_last() =~= a.fields@.take(j as int));
            assert(a.fields@.take(j as int + 1).last() == a.fields@[j as int]);
            assert(out@ =~= head + fields_decl_code(a.fields@.take(j as int + 1)));
        }
        j += 1;
    }
    out.append("}\n\n");
    proof {
        assert(a.fields@.take(a.fields@.len() as int) =~= a.fields@);
        assert(out@ =~= old(out)@ + account_decl_code(*a));
    }
}

fn push_handler(out: &mut String, instr: &Instruction)
    ensures
        final(out)@ == old(out)@ + handler_code(*instr),
{
    out.append("    pub fn ");
    out.append(instr.name.as_str());
    out.append("(\n        ctx: Context<");
    out.append(instr.name.as_str());
    out.append("Context>,\n");
    let ghost head = out@;
    let mut j: usize = 0;
    while j < instr.params.len()
        invariant
            j <= instr.params@.len(),
            out@ == head + handler_params_code(instr.params@.take(j as int)),
        decreases instr.params@.len() - j,
    {
        let param = &instr.params[j];
        let keep = match param.ty {
            ParamType::Signer => false,
            ParamType::Account(_) => false,
            _ => true,
        };
        if keep {
            let ty = param.ty.to_rust_type();
            out.append("        ");
            out.append(param.name.as_str());
            out.append(": ");
            out.append(ty.as_str());
            out.append(",\n");
        }
        proof {
            assert(instr.params@.take(j as int + 1).drop_last() =~= instr.params@.take(j as int));
            assert(instr.params@.take(j as int + 1).last() == instr.params@[j as int]);
            assert(out@ =~= head + handler_params_code(instr.params@.take(j as int + 1)));
        }
        j += 1;
    }
    out.append("    ) -> Result<()> {\n");
    let mut context_name = instr.name.clone();
    context_name.append("Context");
    let ghost mid = out@;
    let mut b: usize = 0;
    while b < instr.body.len()
        invariant
            b <= instr.body@.len(),
            out@ == mid + body_code(instr.body@.take(b as int)),
        decreases instr.body@.len() - b,
    {
        let line = generate_statement(&instr.body[b], context_name.as_str());
        out.append(line.as_str());
        proof {
            assert(instr.body@.take(b as int + 1).drop_last() =~= instr.body@.take(b as int));
            assert(instr.body@.take(b as int + 1).last() == instr.body@[b as int]);
            assert(out@ =~= mid + body_code(instr.body@.take(b as int + 1)));
        }
        b += 1;
    }
    out.append("        Ok(())\n    }\n\n");
    proof {
        assert(instr.params@.take(instr.params@.len() as int) =~= instr.params@);
        assert(instr.body@.take(instr.body@.len() as int) =~= instr.body@);
        assert(out@ =~= old(out)@ + handler_code(*instr));
    }
}

fn push_context_field(out: &mut String, program: &Program, instr: &Instruction, param: &Param)
    ensures
        final(out)@ == old(out)@ + context_field_code(*program, *instr, *param),
{
    match &param.ty {
        ParamType::Signer => {
            out.append("    #[account(mut)]\n    pub ");
            out.append(param.name.as_str());
            out.append(": Signer<'info>,\n");
            proof {
                assert(out@ =~= old(out)@ + context_field_code(*program, *instr, *param));
            }
        },
        ParamType::Account(acc_name) => {
            match find_init_payer(&instr.body, param.name.as_str()) {
                Some(payer) => {
                    let space = account_space(&program.accounts, acc_name.as_str());
                    let digits = u64_to_string(space);
                    out.append("    #[account(\n        init,\n        payer = ");
                    out.append(payer.as_str());
                    out.append(",\n        space = ");
                    out.append(digits.as_str());
                    out.append("\n    )]\n");
                },
                None => {
                    out.append("    #[account(mut)]\n");
                },
            }
            out.append("    pub ");
            out.append(param.name.as_str());
            out.append(": Account<'info, ");
            out.append(acc_name.as_str());
            out.append(">,\n");
            proof {
                assert(out@ =~= old(out)@ + context_field_code(*program, *instr, *param));
            }
        },
        _ => {
            proof {
                assert(out@ =~= old(out)@ + context_field_code(*program, *instr, *param));
            }
        },
    }
}

fn push_context_struct(out: &mut String, program: &Program, instr: &Instruction)
    ensures
        final(out)@ == old(out)@ + context_struct_code(*program, *instr),
{
    out.append("#[derive(Accounts)]\npub struct ");
    out.append(instr.name.as_str());
    out.append("Context<'info> {\n");
    let ghost head = out@;
    let mut j: usize = 0;
    while j < instr.params.len()
        invariant
            j <= instr.params@.len(),
            out@ == head + context_fields_code(*program, *instr, instr.params@.take(j as int)),
        decreases instr.params@.len() - j,
    {
        push_context_field(out, program, instr, &instr.params[j]);
        proof {
            assert(instr.params@.take(j as int + 1).drop_last() =~= instr.params@.take(j as int));
            assert(instr.params@.take(j as int + 1).last() == instr.params@[j as int]);
            assert(out@ =~= head + context_fields_code(
                *program,
                *instr,
                instr.params@.take(j as int + 1),
            ));
        }
        j += 1;
    }
    out.append("}\n\n");
    proof {
        assert(instr.params@.take(instr.params@.len() as int) =~= instr.params@);
        assert(out@ =~= old(out)@ + context_struct_code(*program, *instr));
    }
}

/// Lowers a checked program to the full generated compilation unit: prelude
/// import, account structs, a program module of handlers, then one context
/// struct per instruction, all in declared order.
pub fn generate_anchor_code(hir: &Hir) -> (r: String)
    ensures
        r@ == program_code(hir.program),
{
    let program = &hir.program;
    let ghost p = hir.program;
    let mut out = String::from_str("use anchor_lang::prelude::*;\n\n");
    let ghost start = out@;

    let mut i: usize = 0;
    while i < program.accounts.len()
        invariant
            *program == p,
            i <= p.accounts@.len(),
            out@ == start + accounts_code(p.accounts@.take(i as int)),
        decreases p.accounts@.len() - i,
    {
        push_account_decl(&mut out, &program.accounts[i]);
        proof {
            assert(p.accounts@.take(i as int + 1).drop_last() =~= p.accounts@.take(i as int));
            assert(p.accounts@.take(i as int + 1).last() == p.accounts@[i as int]);
            assert(out@ =~= start + accounts_code(p.accounts@.take(i as int + 1)));
        }
        i += 1;
    }
    proof {
        assert(p.accounts@.take(p.accounts@.len() as int) =~= p.accounts@);
    }

    out.append("#[program]\npub mod ");
    let lowered = to_lowercase(program.name.as_str());
    out.append(lowered.as_str());
    out.append(" {\n    use super::*;\n\n");
    let ghost mid = out@;

    let mut h: usize = 0;
    while h < program.instructions.len()
        invariant
            *program == p,
            h <= p.instructions@.len(),
            out@ == mid + handlers_code(p.instructions@.take(h as int)),
        decreases p.instructions@.len() - h,
    {
        push_handler(&mut out, &program.instructions[h]);
        proof {
            assert(p.instructions@.take(h as int + 1).drop_last() =~= p.instructions@.take(
                h as int,
            ));
            assert(p.instructions@.take(h as int + 1).last() == p.instructions@[h as int]);
            assert(out@ =~= mid + handlers_code(p.instructions@.take(h as int + 1)));
        }
        h += 1;
    }
    out.append("}\n\n");
    let ghost tail = out@;

    let mut c: usize = 0;
    while c < program.instructions.len()
        invariant
            *program == p,
            c <= p.instructions@.len(),
            out@ == tail + contexts_code(p, p.instructions@.take(c as int)),
        decreases p.instructions@.len() - c,
    {
        push_context_struct(&mut out, program, &program.instructions[c]);
        proof {
            assert(p.instructions@.take(c as int + 1).drop_last() =~= p.instructions@.take(
                c as int,
            ));
            assert(p.instructions@.take(c as int + 1).last() == p.instructions@[c as int]);
            assert(out@ =~= tail + contexts_code(p, p.instructions@.take(c as int + 1)));
        }
        c += 1;
    }
    proof {
        assert(p.instructions@.take(p.instructions@.len() as int) =~= p.instructions@);
        assert(out@ =~= program_code(p));
    }
    out
}

/// Law: a context struct holds exactly one field declaration per signer or
/// account parameter, in parameter order, and none for the other parameter
/// kinds: dropping the scalar parameters leaves the field block unchanged,
/// scalar parameters lower to nothing, and every signer or account parameter
/// lowers to a non-empty declaration.
pub proof fn lemma_context_one_field_per_param(p: Program, i: Instruction, ps: Seq<Param>)
    ensures
        context_fields_code(p, i, ps) == context_fields_code(
            p,
            i,
            ps.filter(|q: Param| is_context_param(q)),
        ),
        forall|k: int|
            0 <= k < ps.len() && !is_context_param(ps[k]) ==> context_field_code(p, i, ps[k])
                == Seq::<char>::empty(),
        forall|k: int|
            0 <= k < ps.len() && is_context_param(ps[k]) ==> context_field_code(
                p,
                i,
                ps[k],
            ).len() > 0,
    decreases ps.len(),
{
    reveal(Seq::filter);
    reveal_strlit("    #[account(mut)]\n    pub ");
    reveal_strlit("    pub ");
    let pred = |q: Param| is_context_param(q);
    if ps.len() == 0 {
    } else {
        let sub = ps.drop_last();
        let last = ps.last();
        lemma_context_one_field_per_param(p, i, sub);
        if is_context_param(last) {
            assert(ps.filter(pred) == sub.filter(pred).push(last));
            assert(sub.filter(pred).push(last).drop_last() =~= sub.filter(pred));
            assert(sub.filter(pred).push(last).last() == last);
        } else {
            assert(context_field_code(p, i, last) == Seq::<char>::empty());
            assert(context_fields_code(p, i, sub) + Seq::<char>::empty() =~= context_fields_code(
                p,
                i,
                sub,
            ));
        }
    }
}

/// The characters of the whole written compilation unit: the two fixed
/// header lines — the prelude import and the placeholder program identity —
/// then the generated unit.
pub open spec fn full_source_code(p: Program) -> Seq<char> {
    "use anchor_lang::prelude::*;\n\ndeclare_id!(\"11111111111111111111111111111111\");\n\n"@
        + program_code(p)
}

/// The whole compilation unit as the build driver writes it: the prelude
/// import line, the placeholder program-identity line, then the generated
/// unit.
pub fn generate_full_source(hir: &Hir) -> (r: String)
    ensures
        r@ == full_source_code(hir.program),
{
    let mut out = String::from_str(
        "use anchor_lang::prelude::*;\n\ndeclare_id!(\"11111111111111111111111111111111\");\n\n",
    );
    let code = generate_anchor_code(hir);
    out.append(code.as_str());
    out
}

/// Structurally equal expressions lower to the same text.
pub proof fn lemma_expr_equiv_same_code(a: Expr, b: Expr)
    requires
        expr_equiv(a, b),
    ensures
        expr_code(a) == expr_code(b),
    decreases a,
{
    match (a, b) {
        (
            Expr::FieldAccess { object: ao, field: af },
            Expr::FieldAccess { object: bo, field: bf },
        ) => {
            lemma_expr_equiv_same_code(*ao, *bo);
        },
        (
            Expr::BinaryOp { op: aop, left: al, right: ar },
            Expr::BinaryOp { op: bop, left: bl, right: br },
        ) => {
            lemma_expr_equiv_same_code(*al, *bl);
            lemma_expr_equiv_same_code(*ar, *br);
        },
        (
            Expr::UnaryOp { op: aop, operand: ao },
            Expr::UnaryOp { op: bop, operand: bo },
        ) => {
            lemma_expr_equiv_same_code(*ao, *bo);
        },
        _ => {},
    }
}

/// Law: a desugared compound assignment lowers to a plain assignment whose
/// value applies the operator to the target and the addend, fully
/// parenthesized — never to an in-place update of the target.
pub proof fn lemma_compound_assign_lowering(s: Statement, target: Expr, o: BinOp, value: Expr)
    requires
        s matches Statement::Assign { target: t, value: v } && t == target && ({
            &&& v matches Expr::BinaryOp { op, left, right }
            &&& op == o
            &&& expr_equiv(*left, target)
            &&& *right == value
        }),
    ensures
        statement_code(s) == "        "@ + expr_code(target) + " = "@ + "("@ + expr_code(target)
            + " "@ + binop_code(o) + " "@ + expr_code(value) + ")"@ + ";\n"@,
{
    let v = s->Assign_value;
    let left = v->BinaryOp_left;
    lemma_expr_equiv_same_code(*left, target);
    assert(statement_code(s) =~= "        "@ + expr_code(target) + " = "@ + "("@ + expr_code(
        target,
    ) + " "@ + binop_code(o) + " "@ + expr_code(value) + ")"@ + ";\n"@);
}

} // verus!
