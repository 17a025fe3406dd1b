use solx::ast::{BinOp, Expr, Literal, ParamType, Statement, Type, UnOp};
use solx::codegen::{
    calculate_type_size, generate_anchor_code, generate_expr, generate_full_source,
    generate_statement,
};
use solx::hir::Hir;
use solx::parser::parse;

const COUNTER_SOURCE: &str = r#"
program Counter

account CounterState {
  authority: Pubkey
  count: u64
}

instruction initialize(authority: Signer, state: CounterState) {
  init account state: CounterState payer authority
  state.authority = authority.key
  state.count = 0
}

instruction increment(authority: Signer, state: CounterState) {
  require state.authority == authority.key
  state.count += 1
}
"#;

fn compile(source: &str) -> String {
    let ast = parse(source).expect("parse failed");
    let hir = Hir::from_ast(ast).expect("validation failed");
    generate_anchor_code(&hir)
}

#[test]
fn counter_scenario_generates_the_expected_unit() {
    // The counter program: a mutable signer field, an init-annotated state
    // field sized 8 + 32 + 8 = 48, handlers with zero function parameters
    // whose bodies write through the context's account bag.
    let expected = r"use anchor_lang::prelude::*;

#[account]
pub struct CounterState {
    pub authority: Pubkey,
    pub count: u64,
}

#[program]
pub mod counter {
    use super::*;

    pub fn initialize(
        ctx: Context<initializeContext>,
    ) -> Result<()> {
        ctx.accounts.state.authority = ctx.accounts.authority.key;
        ctx.accounts.state.count = 0;
        Ok(())
    }

    pub fn increment(
        ctx: Context<incrementContext>,
    ) -> Result<()> {
        require!((ctx.accounts.state.authority == ctx.accounts.authority.key));
        ctx.accounts.state.count = (ctx.accounts.state.count + 1);
        Ok(())
    }

}

#[derive(Accounts)]
pub struct initializeContext<'info> {
    #[account(mut)]
    pub authority: Signer<'info>,
    #[account(
        init,
        payer = authority,
        space = 48
    )]
    pub state: Account<'info, CounterState>,
}

#[derive(Accounts)]
pub struct incrementContext<'info> {
    #[account(mut)]
    pub authority: Signer<'info>,
    #[account(mut)]
    pub state: Account<'info, CounterState>,
}

";
    assert_eq!(compile(COUNTER_SOURCE), expected);
}

#[test]
fn full_source_prepends_the_two_header_lines() {
    let ast = parse("program Empty\n").expect("parse failed");
    let hir = Hir::from_ast(ast).expect("validation failed");
    assert_eq!(
        generate_full_source(&hir),
        "use anchor_lang::prelude::*;\n\ndeclare_id!(\"11111111111111111111111111111111\");\n\n\
         use anchor_lang::prelude::*;\n\n#[program]\npub mod empty {\n    use super::*;\n\n}\n\n"
    );
}

#[test]
fn module_name_is_lowercased() {
    // The program module takes the lower-cased program name; an identity
    // mapping would leave "MixedCase" unchanged.
    let output = compile("program MixedCase\n");
    assert!(output.contains("pub mod mixedcase {"));
    assert!(!output.contains("pub mod MixedCase"));
}

#[test]
fn empty_program_generates_the_frame_alone() {
    let output = compile("program Empty\n");
    assert_eq!(
        output,
        "use anchor_lang::prelude::*;\n\n#[program]\npub mod empty {\n    use super::*;\n\n}\n\n"
    );
}

#[test]
fn context_struct_has_one_field_per_signer_or_account_param() {
    // Scalar parameters become handler arguments, never context fields;
    // signer and account parameters become context fields in declared order.
    let source = "program T\n\naccount S { x: u8 }\n\ninstruction f(a: Signer, n: u64, s: S, flag: bool) {\n  s.x = n\n}\n";
    let output = compile(source);
    let expected_context = r"#[derive(Accounts)]
pub struct fContext<'info> {
    #[account(mut)]
    pub a: Signer<'info>,
    #[account(mut)]
    pub s: Account<'info, S>,
}

";
    assert!(output.contains(expected_context), "context was:\n{}", output);
    let expected_handler = r"    pub fn f(
        ctx: Context<fContext>,
        n: u64,
        flag: bool,
    ) -> Result<()> {
";
    assert!(output.contains(expected_handler), "handler was:\n{}", output);
}

#[test]
fn type_sizes_follow_the_width_table() {
    assert_eq!(calculate_type_size(&Type::Pubkey), 32);
    assert_eq!(calculate_type_size(&Type::U8), 1);
    assert_eq!(calculate_type_size(&Type::I8), 1);
    assert_eq!(calculate_type_size(&Type::U16), 2);
    assert_eq!(calculate_type_size(&Type::I16), 2);
    assert_eq!(calculate_type_size(&Type::U32), 4);
    assert_eq!(calculate_type_size(&Type::I32), 4);
    assert_eq!(calculate_type_size(&Type::U64), 8);
    assert_eq!(calculate_type_size(&Type::I64), 8);
    assert_eq!(calculate_type_size(&Type::Bool), 1);
    assert_eq!(calculate_type_size(&Type::String), 8);
    assert_eq!(calculate_type_size(&Type::Vec(Box::new(Type::U64))), 16);
    assert_eq!(calculate_type_size(&Type::Option(Box::new(Type::U32))), 5);
    assert_eq!(
        calculate_type_size(&Type::Vec(Box::new(Type::Vec(Box::new(Type::U8))))),
        17
    );
}

#[test]
fn account_space_is_order_invariant_and_grows_with_fields() {
    // The same fields in another order give the same space annotation.
    let forward = compile(
        "program T\n\naccount S {\n  a: Pubkey\n  b: u64\n}\n\ninstruction f(p: Signer, s: S) {\n  init account s: S payer p\n}\n",
    );
    let backward = compile(
        "program T\n\naccount S {\n  b: u64\n  a: Pubkey\n}\n\ninstruction f(p: Signer, s: S) {\n  init account s: S payer p\n}\n",
    );
    assert!(forward.contains("space = 48"));
    assert!(backward.contains("space = 48"));
    // One more field strictly enlarges the account.
    let wider = compile(
        "program T\n\naccount S {\n  a: Pubkey\n  b: u64\n  c: u8\n}\n\ninstruction f(p: Signer, s: S) {\n  init account s: S payer p\n}\n",
    );
    assert!(wider.contains("space = 49"));
}

#[test]
fn init_without_matching_account_def_falls_back_to_the_bare_tag() {
    // The space annotation looks up the parameter's account type; the empty
    // account definition leaves the fixed record-tag overhead alone.
    let output = compile(
        "program T\n\naccount S { }\n\ninstruction f(p: Signer, s: S) {\n  init account s: S payer p\n}\n",
    );
    assert!(output.contains("space = 8"), "output was:\n{}", output);
}

#[test]
fn type_names_map_through_the_fixed_tables() {
    let nested = Type::Vec(Box::new(Type::Option(Box::new(Type::U8))));
    assert_eq!(nested.to_rust_type(), "Vec<Option<u8>>");
    assert_eq!(nested.to_anchor_type(), "vec<option<u8>>");
    assert_eq!(Type::Pubkey.to_rust_type(), "Pubkey");
    assert_eq!(Type::Pubkey.to_anchor_type(), "pubkey");
    assert_eq!(Type::String.to_rust_type(), "String");
    assert_eq!(Type::String.to_anchor_type(), "string");
    assert_eq!(ParamType::Signer.to_rust_type(), "Signer<'_>");
    assert_eq!(ParamType::Account("Foo".to_string()).to_rust_type(), "Account<'_, Foo>");
    assert_eq!(ParamType::Bool.to_rust_type(), "bool");
}

#[test]
fn statements_lower_one_for_one() {
    let assign = Statement::Assign {
        target: Expr::Ident("count".to_string()),
        value: Expr::BinaryOp {
            op: BinOp::Add,
            left: Box::new(Expr::Ident("count".to_string())),
            right: Box::new(Expr::Literal(Literal::UInt(1))),
        },
    };
    assert_eq!(
        generate_statement(&assign, "TickContext"),
        "        ctx.accounts.count = (ctx.accounts.count + 1);\n"
    );
    let require = Statement::Require {
        condition: Expr::Literal(Literal::Bool(true)),
        message: Some("always".to_string()),
    };
    assert_eq!(generate_statement(&require, "TickContext"), "        require!(true, always);\n");
    let init = Statement::InitAccount {
        var_name: "s".to_string(),
        account_name: "S".to_string(),
        payer: "p".to_string(),
        signer: None,
    };
    assert_eq!(generate_statement(&init, "TickContext"), "");
}

#[test]
fn expressions_lower_with_full_parentheses() {
    let e = Expr::BinaryOp {
        op: BinOp::Mul,
        left: Box::new(Expr::UnaryOp {
            op: UnOp::Neg,
            operand: Box::new(Expr::Ident("a".to_string())),
        }),
        right: Box::new(Expr::Literal(Literal::Int(-3))),
    };
    assert_eq!(generate_expr(&e, "C"), "(-ctx.accounts.a * -3)");
    let s = Expr::Literal(Literal::String("hi".to_string()));
    assert_eq!(generate_expr(&s, "C"), "\"hi\"");
}

#[test]
fn extreme_integer_literals_render_in_decimal() {
    let lowest = Expr::Literal(Literal::Int(i64::MIN));
    assert_eq!(generate_expr(&lowest, "C"), "-9223372036854775808");
    let highest = Expr::Literal(Literal::UInt(u64::MAX));
    assert_eq!(generate_expr(&highest, "C"), "18446744073709551615");
}

#[test]
fn validator_accepts_resolving_references_and_passes_the_tree_through() {
    let ast = parse(COUNTER_SOURCE).expect("parse failed");
    let again = parse(COUNTER_SOURCE).expect("parse failed");
    let hir = Hir::from_ast(ast).expect("validation failed");
    assert_eq!(hir.program, again);
}

#[test]
fn validator_names_the_first_unknown_account_reference() {
    let source = "program T\n\naccount Known { x: u8 }\n\ninstruction f(a: Known, b: MissingOne, c: MissingTwo) {\n}\n";
    let ast = parse(source).expect("parse failed");
    let err = Hir::from_ast(ast).expect_err("an unknown account type must fail");
    assert_eq!(err.account_name, "MissingOne");
    assert_eq!(err.message(), "Unknown account type: MissingOne");
}
