//! The printer: spells a program back out in the source language, in the
//! canonical layout the parser reads.

use vstd::prelude::*;

use crate::ast::{
    rust_type_view, Expr, Field, Instruction, Literal, Param, ParamType, Program, Statement,
};
use crate::codegen::{binop_code, unop_code};
use crate::strings::{dec_digits, dec_int, i64_to_string, u64_to_string};

verus! {

/// The source spelling of a parameter kind: its keyword, or the bare account
/// type name for an account reference.
pub open spec fn param_type_source(t: ParamType) -> Seq<char> {
    match t {
        ParamType::Signer => "Signer"@,
        ParamType::Account(name) => name@,
        ParamType::Pubkey => "Pubkey"@,
        ParamType::U8 => "u8"@,
        ParamType::U16 => "u16"@,
        ParamType::U32 => "u32"@,
        ParamType::U64 => "u64"@,
        ParamType::I8 => "i8"@,
        ParamType::I16 => "i16"@,
        ParamType::I32 => "i32"@,
        ParamType::I64 => "i64"@,
        ParamType::Bool => "bool"@,
        ParamType::String => "String"@,
    }
}

/// The source spelling of a literal.
pub open spec fn literal_source(l: Literal) -> Seq<char> {
    match l {
        Literal::Int(i) => dec_int(i as int),
        Literal::UInt(u) => dec_digits(u as nat),
        Literal::Bool(b) => if b {
            "true"@
        } else {
            "false"@
        },
        Literal::String(s) => "\""@ + s@ + "\""@,
    }
}

/// The source spelling of an expression, without parentheses: the grammar
/// has none, so only parser-shaped trees print unambiguously.
pub open spec fn expr_source(e: Expr) -> Seq<char>
    decreases e,
{
    match e {
        Expr::Ident(name) => name@,
        Expr::FieldAccess { object, field } => expr_source(*object) + "."@ + field@,
        Expr::Literal(lit) => literal_source(lit),
        Expr::BinaryOp { op, left, right } => expr_source(*left) + " "@ + binop_code(op) + " "@
            + expr_source(*right),
        Expr::UnaryOp { op, operand } => unop_code(op) + expr_source(*operand),
    }
}

/// The source spelling of one statement, without its line frame.
pub open spec fn statement_source(s: Statement) -> Seq<char> {
    match s {
        Statement::InitAccount { var_name, account_name, payer, signer } => "init account "@
            + var_name@ + ": "@ + account_name@ + " payer "@ + payer@ + match signer {
            Some(sg) => " signer "@ + sg@,
            None => Seq::<char>::empty(),
        },
        Statement::Require { condition, message } => "require "@ + expr_source(condition)
            + match message {
            Some(m) => ", \""@ + m@ + "\""@,
            None => Seq::<char>::empty(),
        },
        Statement::Assign { target, value } => expr_source(target) + " = "@ + expr_source(value),
        Statement::Expr(e) => expr_source(e),
    }
}

/// The indented statement lines of an instruction body.
pub open spec fn body_source(body: Seq<Statement>) -> Seq<char>
    decreases body.len(),
{
    if body.len() == 0 {
        Seq::<char>::empty()
    } else {
        body_source(body.drop_last()) + "  "@ + statement_source(body.last()) + "\n"@
    }
}

/// The source spelling of one parameter.
pub open spec fn param_source(p: Param) -> Seq<char> {
    p.name@ + ": "@ + param_type_source(p.ty)
}

/// A comma-separated parameter list.
pub open spec fn params_source(ps: Seq<Param>) -> Seq<char>
    decreases ps.len(),
{
    if ps.len() == 0 {
        Seq::<char>::empty()
    } else if ps.len() == 1 {
        param_source(ps[0])
    } else {
        params_source(ps.drop_last()) + ", "@ + param_source(ps.last())
    }
}

/// The indented field lines of an account block.
pub open spec fn fields_source(fields: Seq<Field>) -> Seq<char>
    decreases fields.len(),
{
    if fields.len() == 0 {
        Seq::<char>::empty()
    } else {
        fields_source(fields.drop_last()) + "  "@ + fields.last().name@ + ": "@ + rust_type_view(
            fields.last().ty,
        ) + "\n"@
    }
}

/// One printed account definition.
pub open spec fn account_source(a: crate::ast::AccountDef) -> Seq<char> {
    "account "@ + a.name@ + " {\n"@ + fields_source(a.fields@) + "}\n\n"@
}

/// The printed account definitions, in declared order.
pub open spec fn accounts_source(accounts: Seq<crate::ast::AccountDef>) -> Seq<char>
    decreases accounts.len(),
{
    if accounts.len() == 0 {
        Seq::<char>::empty()
    } else {
        accounts_source(accounts.drop_last()) + account_source(accounts.last())
    }
}

/// One printed instruction.
pub open spec fn instruction_source(i: Instruction) -> Seq<char> {
    "instruction "@ + i.name@ + "("@ + params_source(i.params@) + ") {\n"@ + body_source(i.body@)
        + "}\n\n"@
}

/// The printed instructions, in declared order.
pub open spec fn instructions_source(instrs: Seq<Instruction>) -> Seq<char>
    decreases instrs.len(),
{
    if instrs.len() == 0 {
        Seq::<char>::empty()
    } else {
        instructions_source(instrs.drop_last()) + instruction_source(instrs.last())
    }
}

/// The whole printed program.
pub open spec fn program_source(p: Program) -> Seq<char> {
    "program "@ + p.name@ + "\n\n"@ + accounts_source(p.accounts@) + instructions_source(
        p.instructions@,
    )
}

fn param_type_to_source(t: &ParamType) -> (r: String)
    ensures
        r@ == param_type_source(*t),
{
    match t {
        ParamType::Signer => String::from_str("Signer"),
        ParamType::Account(name) => name.clone(),
        ParamType::Pubkey => String::from_str("Pubkey"),
        ParamType::U8 => String::from_str("u8"),
        ParamType::U16 => String::from_str("u16"),
        ParamType::U32 => String::from_str("u32"),
        ParamType::U64 => String::from_str("u64"),
        ParamType::I8 => String::from_str("i8"),
        ParamType::I16 => String::from_str("i16"),
        ParamType::I32 => String::from_str("i32"),
        ParamType::I64 => String::from_str("i64"),
        ParamType::Bool => String::from_str("bool"),
        ParamType::String => String::from_str("String"),
    }
}

fn binop_source_str(op: crate::ast::BinOp) -> (r: &'static str)
    ensures
        r@ == binop_code(op),
{
    match op {
        crate::ast::BinOp::Add => "+",
        crate::ast::BinOp::Sub => "-",
        crate::ast::BinOp::Mul => "*",
        crate::ast::BinOp::Div => "/",
        crate::ast::BinOp::Mod => "%",
        crate::ast::BinOp::Eq => "==",
        crate::ast::BinOp::Ne => "!=",
        crate::ast::BinOp::Lt => "<",
        crate::ast::BinOp::Le => "<=",
        crate::ast::BinOp::Gt => ">",
        crate::ast::BinOp::Ge => ">=",
        crate::ast::BinOp::And => "&&",
        crate::ast::BinOp::Or => "||",
    }
}

fn push_expr_source(out: &mut String, e: &Expr)
    ensures
        final(out)@ == old(out)@ + expr_source(*e),
    decreases *e,
{
    match e {
        Expr::Ident(name) => {
            out.append(name.as_str());
        },
        Expr::FieldAccess { object, field } => {
            push_expr_source(out, object);
            out.append(".");
            out.append(field.as_str());
            proof {
                assert(out@ =~= old(out)@ + expr_source(*e));
            }
        },
        Expr::Literal(lit) => match lit {
            Literal::Int(i) => {
                let t = i64_to_string(*i);
                out.append(t.as_str());
            },
            Literal::UInt(u) => {
                let t = u64_to_string(*u);
                out.append(t.as_str());
            },
            Literal::Bool(b) => {
                if *b {
                    out.append("true");
                } else {
                    out.append("false");
                }
            },
            Literal::String(text) => {
                out.append("\"");
                out.append(text.as_str());
                out.append("\"");
                proof {
                    assert(out@ =~= old(out)@ + expr_source(*e));
                }
            },
        },
        Expr::BinaryOp { op, left, right } => {
            push_expr_source(out, left);
            out.append(" ");
            out.append(binop_source_str(*op));
            out.append(" ");
            push_expr_source(out, right);
            proof {
                assert(out@ =~= old(out)@ + expr_source(*e));
            }
        },
        Expr::UnaryOp { op, operand } => {
            match op {
                crate::ast::UnOp::Not => out.append("!"),
                crate::ast::UnOp::Neg => out.append("-"),
            }
            push_expr_source(out, operand);
            proof {
                assert(out@ =~= old(out)@ + expr_source(*e));
            }
        },
    }
}

fn push_statement_source(out: &mut String, s: &Statement)
    ensures
        final(out)@ == old(out)@ + statement_source(*s),
{
    match s {
        Statement::InitAccount { var_name, account_name, payer, signer } => {
            out.append("init account ");
            out.append(var_name.as_str());
            out.append(": ");
            out.append(account_name.as_str());
            out.append(" payer ");
            out.append(payer.as_str());
            match signer {
                Some(sg) => {
                    out.append(" signer ");
                    out.append(sg.as_str());
                },
                None => {},
            }
            proof {
                assert(out@ =~= old(out)@ + statement_source(*s));
            }
        },
        Statement::Require { condition, message } => {
            out.append("require ");
            push_expr_source(out, condition);
            match message {
                Some(m) => {
                    out.append(", \"");
                    out.append(m.as_str());
                    out.append("\"");
                },
                None => {},
            }
            proof {
                assert(out@ =~= old(out)@ + statement_source(*s));
            }
        },
        Statement::Assign { target, value } => {
            push_expr_source(out, target);
            out.append(" = ");
            push_expr_source(out, value);
            proof {
                assert(out@ =~= old(out)@ + statement_source(*s));
            }
        },
        Statement::Expr(e) => {
            push_expr_source(out, e);
            proof {
                assert(out@ =~= old(out)@ + statement_source(*s));
            }
        },
    }
}

/// Prints a program back in the source language: the header line, then each
/// account block and each instruction in declared order, statements one per
/// indented line. Compound assignments were desugared while parsing, so
/// their plain form is what prints.
pub fn to_source(program: &Program) -> (r: String)
    ensures
        r@ == program_source(*program),
{
    let ghost p = *program;
    let mut out = String::from_str("program ");
    out.append(program.name.as_str());
    out.append("\n\n");
    let ghost head = out@;

    let mut i: usize = 0;
    while i < program.accounts.len()
        invariant
            *program == p,
            i <= p.accounts@.len(),
            out@ == head + accounts_source(p.accounts@.take(i as int)),
        decreases p.accounts@.len() - i,
    {
        let account = &program.accounts[i];
        out.append("account ");
        out.append(account.name.as_str());
        out.append(" {\n");
        let ghost acc_head = out@;
        let mut j: usize = 0;
        while j < account.fields.len()
            invariant
                j <= account.fields@.len(),
                out@ == acc_head + fields_source(account.fields@.take(j as int)),
            decreases account.fields@.len() - j,
        {
            let ty = account.fields[j].ty.to_rust_type();
            out.append("  ");
            out.append(account.fields[j].name.as_str());
            out.append(": ");
            out.append(ty.as_str());
            out.append("\n");
            proof {
                assert(account.fields@.take(j as int + 1).drop_last() =~= account.fields@.take(
                    j as int,
                ));
                assert(account.fields@.take(j as int + 1).last() == account.fields@[j as int]);
                assert(out@ =~= acc_head + fields_source(account.fields@.take(j as int + 1)));
            }
            j += 1;
        }
        out.append("}\n\n");
        proof {
            assert(account.fields@.take(account.fields@.len() as int) =~= account.fields@);
            assert(p.accounts@.take(i as int + 1).drop_last() =~= p.accounts@.take(i as int));
            assert(p.accounts@.take(i as int + 1).last() == p.accounts@[i as int]);
            assert(out@ =~= head + accounts_source(p.accounts@.take(i as int + 1)));
        }
        i += 1;
    }
    proof {
        assert(p.accounts@.take(p.accounts@.len() as int) =~= p.accounts@);
    }
    let ghost mid = out@;

    let mut h: usize = 0;
    while h < program.instructions.len()
        invariant
            *program == p,
            h <= p.instructions@.len(),
            out@ == mid + instructions_source(p.instructions@.take(h as int)),
        decreases p.instructions@.len() - h,
    {
        let instr = &program.instructions[h];
        out.append("instruction ");
        out.append(instr.name.as_str());
        out.append("(");
        let ghost par_head = out@;
        let mut k: usize = 0;
        while k < instr.params.len()
            invariant
                k <= instr.params@.len(),
                out@ == par_head + params_source(instr.params@.take(k as int)),
            decreases instr.params@.len() - k,
        {
            if k > 0 {
                out.append(", ");
            }
            let ty = param_type_to_source(&instr.params[k].ty);
            out.append(instr.params[k].name.as_str());
            out.append(": ");
            out.append(ty.as_str());
            proof {
                assert(instr.params@.take(k as int + 1).drop_last() =~= instr.params@.take(
                    k as int,
                ));
                assert(instr.params@.take(k as int + 1).last() == instr.params@[k as int]);
                assert(instr.params@.take(k as int + 1)[0] == instr.params@[0]);
                assert(out@ =~= par_head + params_source(instr.params@.take(k as int + 1)));
            }
            k += 1;
        }
        out.append(") {\n");
        let ghost body_head = out@;
        let mut b: usize = 0;
        while b < instr.body.len()
            invariant
                b <= instr.body@.len(),
                out@ == body_head + body_source(instr.body@.take(b as int)),
            decreases instr.body@.len() - b,
        {
            out.append("  ");
            push_statement_source(&mut out, &instr.body[b]);
            out.append("\n");
            proof {
                assert(instr.body@.take(b as int + 1).drop_last() =~= instr.body@.take(b as int));
                assert(instr.body@.take(b as int + 1).last() == instr.body@[b as int]);
                assert(out@ =~= body_head + body_source(instr.body@.take(b as int + 1)));
            }
            b += 1;
        }
        out.append("}\n\n");
        proof {
            assert(instr.params@.take(instr.params@.len() as int) =~= instr.params@);
            assert(instr.body@.take(instr.body@.len() as int) =~= instr.body@);
            assert(p.instructions@.take(h as int + 1).drop_last() =~= p.instructions@.take(
                h as int,
            ));
            assert(p.instructions@.take(h as int + 1).last() == p.instructions@[h as int]);
            assert(out@ =~= mid + instructions_source(p.instructions@.take(h as int + 1)));
        }
        h += 1;
    }
    proof {
        assert(p.instructions@.take(p.instructions@.len() as int) =~= p.instructions@);
        assert(out@ =~= program_source(p));
    }
    out
}

} // verus!
