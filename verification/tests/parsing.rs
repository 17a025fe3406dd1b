use solx::ast::{BinOp, Expr, Field, Literal, Param, ParamType, Statement, Type};
use solx::parser::{parse, parse_program_tokens, Token};

fn ident(name: &str) -> Expr {
    Expr::Ident(name.to_string())
}

fn field_access(object: Expr, field: &str) -> Expr {
    Expr::FieldAccess { object: Box::new(object), field: field.to_string() }
}

fn binary(op: BinOp, left: Expr, right: Expr) -> Expr {
    Expr::BinaryOp { op, left: Box::new(left), right: Box::new(right) }
}

#[test]
fn test_parse_counter() {
    let source = r#"
program Counter

account CounterState {
  authority: Pubkey
  count: u64
}

instruction initialize(authority: Signer) {
  init account state: CounterState payer authority
  state.authority = authority.key
  state.count = 0
}

instruction increment(authority: Signer) {
  require state.authority == authority.key
  state.count += 1
}
"#;
    let result = parse(source);
    assert!(result.is_ok(), "Parse failed: {:?}", result.err());
}

#[test]
fn parse_rebuilds_the_printed_program() {
    // The program's own printed form parses back to a structurally equal
    // tree.
    let source = "program Demo\n\naccount State {\n  owner: Pubkey\n  total: u64\n}\n\ninstruction bump(owner: Signer, state: State, amount: u64) {\n  state.total = amount\n}\n";
    let program = parse(source).expect("parse failed");
    assert_eq!(program.name, "Demo");
    assert_eq!(program.accounts.len(), 1);
    assert_eq!(program.accounts[0].name, "State");
    assert_eq!(
        program.accounts[0].fields,
        vec![
            Field { name: "owner".to_string(), ty: Type::Pubkey },
            Field { name: "total".to_string(), ty: Type::U64 },
        ]
    );
    assert_eq!(program.instructions.len(), 1);
    let instr = &program.instructions[0];
    assert_eq!(instr.name, "bump");
    assert_eq!(
        instr.params,
        vec![
            Param { name: "owner".to_string(), ty: ParamType::Signer },
            Param { name: "state".to_string(), ty: ParamType::Account("State".to_string()) },
            Param { name: "amount".to_string(), ty: ParamType::U64 },
        ]
    );
    assert_eq!(
        instr.body,
        vec![Statement::Assign { target: field_access(ident("state"), "total"), value: ident("amount") }]
    );
}

#[test]
fn nested_types_parse() {
    let source = "program T\n\naccount A {\n  xs: Vec<Option<u8>>\n  flag: Option<bool>\n}\n";
    let program = parse(source).expect("parse failed");
    assert_eq!(
        program.accounts[0].fields,
        vec![
            Field {
                name: "xs".to_string(),
                ty: Type::Vec(Box::new(Type::Option(Box::new(Type::U8)))),
            },
            Field { name: "flag".to_string(), ty: Type::Option(Box::new(Type::Bool)) },
        ]
    );
}

#[test]
fn unknown_type_name_is_rejected() {
    let source = "program T\n\naccount A {\n  x: Blob\n}\n";
    let err = parse(source).expect_err("a made-up type name must not parse");
    assert!(!err.message.is_empty());
}

#[test]
fn compound_assignment_desugars() {
    // `count += 1` becomes an assignment of `count + 1`, never an in-place
    // increment.
    let source = "program T\n\ninstruction tick(count: u64) {\n  count += 1\n}\n";
    let program = parse(source).expect("parse failed");
    assert_eq!(
        program.instructions[0].body,
        vec![Statement::Assign {
            target: ident("count"),
            value: binary(BinOp::Add, ident("count"), Expr::Literal(Literal::UInt(1))),
        }]
    );
}

#[test]
fn every_compound_operator_desugars() {
    let source = "program T\n\ninstruction f(x: u64) {\n  x -= 2\n  x *= 3\n  x /= 4\n  x %= 5\n}\n";
    let program = parse(source).expect("parse failed");
    let expected_ops =
        [(BinOp::Sub, 2u64), (BinOp::Mul, 3), (BinOp::Div, 4), (BinOp::Mod, 5)];
    for (stmt, (op, n)) in program.instructions[0].body.iter().zip(expected_ops) {
        assert_eq!(
            *stmt,
            Statement::Assign {
                target: ident("x"),
                value: binary(op, ident("x"), Expr::Literal(Literal::UInt(n))),
            }
        );
    }
}

#[test]
fn expression_precedence_builds_left_deep_trees() {
    let source = "program T\n\ninstruction f(a: u64) {\n  require a + b * c == d && e || f\n}\n";
    let program = parse(source).expect("parse failed");
    let expected = binary(
        BinOp::Or,
        binary(
            BinOp::And,
            binary(
                BinOp::Eq,
                binary(BinOp::Add, ident("a"), binary(BinOp::Mul, ident("b"), ident("c"))),
                ident("d"),
            ),
            ident("e"),
        ),
        ident("f"),
    );
    assert_eq!(
        program.instructions[0].body,
        vec![Statement::Require { condition: expected, message: None }]
    );
}

#[test]
fn require_carries_its_message() {
    let source = "program T\n\ninstruction f(a: u64) {\n  require a == 1, \"must be one\"\n}\n";
    let program = parse(source).expect("parse failed");
    assert_eq!(
        program.instructions[0].body,
        vec![Statement::Require {
            condition: binary(BinOp::Eq, ident("a"), Expr::Literal(Literal::UInt(1))),
            message: Some("must be one".to_string()),
        }]
    );
}

#[test]
fn init_account_with_signer_parses() {
    let source = "program T\n\naccount S { x: u8 }\n\ninstruction f(owner: Signer, state: S) {\n  init account state: S payer owner signer bob\n}\n";
    let program = parse(source).expect("parse failed");
    assert_eq!(
        program.instructions[0].body,
        vec![Statement::InitAccount {
            var_name: "state".to_string(),
            account_name: "S".to_string(),
            payer: "owner".to_string(),
            signer: Some("bob".to_string()),
        }]
    );
}

#[test]
fn unary_and_literals_parse() {
    let source = "program T\n\ninstruction f(a: bool) {\n  require !done\n  x = -5\n  y = true\n  z = \"hi\"\n}\n";
    let program = parse(source).expect("parse failed");
    let body = &program.instructions[0].body;
    assert_eq!(
        body[0],
        Statement::Require {
            condition: Expr::UnaryOp {
                op: solx::ast::UnOp::Not,
                operand: Box::new(ident("done")),
            },
            message: None,
        }
    );
    assert_eq!(
        body[1],
        Statement::Assign {
            target: ident("x"),
            value: Expr::UnaryOp {
                op: solx::ast::UnOp::Neg,
                operand: Box::new(Expr::Literal(Literal::UInt(5))),
            },
        }
    );
    assert_eq!(
        body[2],
        Statement::Assign { target: ident("y"), value: Expr::Literal(Literal::Bool(true)) }
    );
    assert_eq!(
        body[3],
        Statement::Assign {
            target: ident("z"),
            value: Expr::Literal(Literal::String("hi".to_string())),
        }
    );
}

#[test]
fn oversized_integer_literal_lexes_as_zero() {
    let source = "program T\n\ninstruction f(x: u64) {\n  x = 18446744073709551616\n  y = 18446744073709551615\n}\n";
    let program = parse(source).expect("parse failed");
    assert_eq!(
        program.instructions[0].body[0],
        Statement::Assign { target: ident("x"), value: Expr::Literal(Literal::UInt(0)) }
    );
    assert_eq!(
        program.instructions[0].body[1],
        Statement::Assign {
            target: ident("y"),
            value: Expr::Literal(Literal::UInt(18446744073709551615)),
        }
    );
}

#[test]
fn missing_closing_brace_fails_with_nonempty_error() {
    // An account block that never closes must fail the run with a report,
    // yielding no tree at all.
    let source = "program Broken\n\naccount State {\n  owner: Pubkey\n";
    let err = parse(source).expect_err("an unterminated block must not parse");
    assert!(!err.message.is_empty());
}

#[test]
fn unterminated_string_fails() {
    let source = "program T\n\ninstruction f(a: u64) {\n  require a == 1, \"no end\n}\n";
    let err = parse(source).expect_err("an unterminated string must not parse");
    assert!(!err.message.is_empty());
}

#[test]
fn stray_operator_characters_fail() {
    let err = parse("program T\n\ninstruction f(a: bool) {\n  require a & b\n}\n")
        .expect_err("a lone '&' must not lex");
    assert!(!err.message.is_empty());
    let err = parse("program T # comment\n").expect_err("an unknown character must not lex");
    assert!(!err.message.is_empty());
}

#[test]
fn trailing_input_fails() {
    let err = parse("program T\n\naccount A { x: u8 }\n:::")
        .expect_err("trailing tokens must not parse");
    assert!(!err.message.is_empty());
}

#[test]
fn token_stream_parses_to_the_program_it_spells() {
    let toks = vec![
        Token::Ident("program".to_string()),
        Token::Ident("P".to_string()),
        Token::Ident("account".to_string()),
        Token::Ident("A".to_string()),
        Token::LBrace,
        Token::Ident("x".to_string()),
        Token::Colon,
        Token::Ident("u8".to_string()),
        Token::RBrace,
    ];
    let program = parse_program_tokens(&toks).expect("token parse failed");
    assert_eq!(program.name, "P");
    assert_eq!(program.accounts.len(), 1);
    assert_eq!(
        program.accounts[0].fields,
        vec![Field { name: "x".to_string(), ty: Type::U8 }]
    );
    assert!(program.instructions.is_empty());
}

#[test]
fn trailing_tokens_fail_the_token_parser() {
    let toks = vec![
        Token::Ident("program".to_string()),
        Token::Ident("P".to_string()),
        Token::Colon,
    ];
    let err = parse_program_tokens(&toks).expect_err("trailing tokens must not parse");
    assert!(!err.message.is_empty());
}

#[test]
fn empty_program_parses() {
    let program = parse("program Empty\n").expect("parse failed");
    assert_eq!(program.name, "Empty");
    assert!(program.accounts.is_empty());
    assert!(program.instructions.is_empty());
}
