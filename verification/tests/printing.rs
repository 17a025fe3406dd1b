use solx::hir::Hir;
use solx::parser::parse;
use solx::pretty::to_source;

const COUNTER_SOURCE: &str = r#"
program Counter

account CounterState {
  authority: Pubkey
  count: u64
}

instruction initialize(authority: Signer, state: CounterState) {
  init account state: CounterState payer authority
  state.authority = authority.key
  state.count = 0
}

instruction increment(authority: Signer, state: CounterState) {
  require state.authority == authority.key
  state.count += 1
}
"#;

#[test]
fn counter_prints_in_canonical_layout() {
    // The compound assignment was desugared while parsing, so its plain
    // form is what prints.
    let program = parse(COUNTER_SOURCE).expect("parse failed");
    let expected = r#"program Counter

account CounterState {
  authority: Pubkey
  count: u64
}

instruction initialize(authority: Signer, state: CounterState) {
  init account state: CounterState payer authority
  state.authority = authority.key
  state.count = 0
}

instruction increment(authority: Signer, state: CounterState) {
  require state.authority == authority.key
  state.count = state.count + 1
}

"#;
    assert_eq!(to_source(&program), expected);
}

#[test]
fn printed_counter_parses_back_to_an_equal_tree() {
    // The round trip of the testable pipeline: a valid program's own
    // printed form parses and validates back to a structurally equal
    // program, modulo the compound-assignment desugaring.
    let program = parse(COUNTER_SOURCE).expect("parse failed");
    let printed = to_source(&program);
    let reparsed = parse(&printed).expect("printed form failed to parse");
    assert_eq!(reparsed, program);
    let checked = Hir::from_ast(reparsed).expect("printed form failed to validate");
    assert_eq!(checked.program, program);
}

#[test]
fn printed_feature_mix_parses_back_to_an_equal_tree() {
    // Every construct at once: nested types, a co-signed initialisation, a
    // message-bearing requirement, unary operators and literals.
    let source = "program Mix\n\naccount Vault {\n  owners: Vec<Pubkey>\n  note: Option<String>\n  open: bool\n}\n\ninstruction setup(admin: Signer, vault: Vault, cap: u64, label: String) {\n  init account vault: Vault payer admin signer backup\n  require !vault.open, \"already open\"\n  vault.open = true\n  cap = cap * 2 + 1\n  label = \"ready\"\n  flag = -balance\n}\n";
    let program = parse(source).expect("parse failed");
    let printed = to_source(&program);
    let reparsed = parse(&printed).expect("printed form failed to parse");
    assert_eq!(reparsed, program);
}

#[test]
fn printed_empty_program_parses_back() {
    let program = parse("program Empty\n").expect("parse failed");
    assert_eq!(to_source(&program), "program Empty\n\n");
    let reparsed = parse(&to_source(&program)).expect("printed form failed to parse");
    assert_eq!(reparsed, program);
}
