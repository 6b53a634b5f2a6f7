use opam_file_format::lexer::{lex, Envop, Logop, Pfxop, Relop, Token};
use opam_file_format::parser::{parse, Item, OpamFile, Value};

fn parse_text(text: &str) -> OpamFile {
    parse(lex(text).unwrap()).unwrap()
}

fn ident(s: &str) -> Box<Value> {
    Box::new(Value::Ident(s.to_string()))
}

fn string(s: &str) -> Box<Value> {
    Box::new(Value::String(s.to_string()))
}

fn var(v: Value) -> Box<Item> {
    Box::new(Item::Variable(v))
}

#[test]
fn duplicate_key_keeps_position_and_takes_last_value() {
    let file = parse_text("a: 1\nb: 2\na: 3");
    assert_eq!(
        file.items,
        vec![
            ("a".to_string(), var(Value::Int(3))),
            ("b".to_string(), var(Value::Int(2))),
        ]
    );
}

#[test]
fn option_with_logop_constraint() {
    let file = parse_text("d: \"pkg\" {>= \"2.0\" & < \"3.0\"}");
    let expected = Value::Option(
        string("pkg"),
        vec![Box::new(Value::Logop(
            Logop::And,
            Box::new(Value::PrefixRelop(Relop::Geq, string("2.0"))),
            Box::new(Value::PrefixRelop(Relop::Lt, string("3.0"))),
        ))],
    );
    assert_eq!(file.items, vec![("d".to_string(), var(expected))]);
}

#[test]
fn anonymous_section() {
    let file = parse_text("s {a: 1}");
    assert_eq!(
        file.items,
        vec![(
            "s".to_string(),
            Box::new(Item::Section {
                name: None,
                items: vec![("a".to_string(), var(Value::Int(1)))],
            }),
        )]
    );
}

#[test]
fn named_section() {
    let file = parse_text("s \"n\" {a: 1}");
    assert_eq!(
        file.items,
        vec![(
            "s".to_string(),
            Box::new(Item::Section {
                name: Some("n".to_string()),
                items: vec![("a".to_string(), var(Value::Int(1)))],
            }),
        )]
    );
}

#[test]
fn duplicate_key_inside_section() {
    let file = parse_text("s {a: 1 a: 2}");
    assert_eq!(
        file.items,
        vec![(
            "s".to_string(),
            Box::new(Item::Section {
                name: None,
                items: vec![("a".to_string(), var(Value::Int(2)))],
            }),
        )]
    );
}

#[test]
fn relop_between_atoms() {
    let file = parse_text("x: a >= b");
    let expected = Value::Relop(Relop::Geq, ident("a"), ident("b"));
    assert_eq!(file.items, vec![("x".to_string(), var(expected))]);
}

#[test]
fn env_binding_between_atoms() {
    let file = parse_text("x: a += b");
    let expected = Value::EnvBinding(ident("a"), Envop::PlusEq, ident("b"));
    assert_eq!(file.items, vec![("x".to_string(), var(expected))]);
}

#[test]
fn prefix_operator_covers_logop_chain() {
    let file = parse_text("x: !a & b");
    let expected = Value::Pfxop(
        Pfxop::Not,
        Box::new(Value::Logop(Logop::And, ident("a"), ident("b"))),
    );
    assert_eq!(file.items, vec![("x".to_string(), var(expected))]);
}

#[test]
fn logop_chains_associate_to_the_right() {
    let file = parse_text("x: a & b | c");
    let expected = Value::Logop(
        Logop::And,
        ident("a"),
        Box::new(Value::Logop(Logop::Or, ident("b"), ident("c"))),
    );
    assert_eq!(file.items, vec![("x".to_string(), var(expected))]);
}

#[test]
fn option_suffix_binds_tighter_than_logop() {
    let file = parse_text("x: a & b {c}");
    let expected = Value::Logop(
        Logop::And,
        ident("a"),
        Box::new(Value::Option(ident("b"), vec![ident("c")])),
    );
    assert_eq!(file.items, vec![("x".to_string(), var(expected))]);
}

#[test]
fn repeated_option_suffixes() {
    let file = parse_text("x: a {b} {c}");
    let expected = Value::Option(
        Box::new(Value::Option(ident("a"), vec![ident("b")])),
        vec![ident("c")],
    );
    assert_eq!(file.items, vec![("x".to_string(), var(expected))]);
}

#[test]
fn group_and_list_values() {
    let file = parse_text("x: (a b)\ny: [a b]");
    assert_eq!(
        file.items,
        vec![
            (
                "x".to_string(),
                var(Value::Group(vec![ident("a"), ident("b")])),
            ),
            (
                "y".to_string(),
                var(Value::List(vec![ident("a"), ident("b")])),
            ),
        ]
    );
}

#[test]
fn empty_file_parses_to_no_items() {
    let file = parse_text("");
    assert_eq!(file.items, vec![]);
}

#[test]
fn end_of_input_error_has_no_token() {
    let err = parse(lex("a:").unwrap()).unwrap_err();
    assert!(err.0.is_none());
    assert_eq!(err.1, "unexpected end of input");
}

#[test]
fn unexpected_token_error_carries_the_token() {
    let err = parse(lex("a 1").unwrap()).unwrap_err();
    let (tok, span) = err.0.unwrap();
    assert_eq!(tok, Token::INT(1));
    assert_eq!(span.start, 2);
    assert_eq!(span.end, 3);
    assert_eq!(err.1, "unexpected token");
}

#[test]
fn stray_closing_brace_is_an_error() {
    let err = parse(lex("}").unwrap()).unwrap_err();
    let (tok, _) = err.0.unwrap();
    assert_eq!(tok, Token::RBRACE);
}

#[test]
fn unclosed_section_is_an_error() {
    let err = parse(lex("s {a: 1").unwrap()).unwrap_err();
    assert!(err.0.is_none());
    assert_eq!(err.1, "unexpected end of input");
}

#[test]
fn empty_option_suffix() {
    let file = parse_text("x: a {}");
    let expected = Value::Option(ident("a"), vec![]);
    assert_eq!(file.items, vec![("x".to_string(), var(expected))]);
}

#[test]
fn doubled_prefix_operator() {
    let file = parse_text("x: !!a");
    let expected = Value::Pfxop(Pfxop::Not, Box::new(Value::Pfxop(Pfxop::Not, ident("a"))));
    assert_eq!(file.items, vec![("x".to_string(), var(expected))]);
}

#[test]
fn defined_prefix_operator() {
    let file = parse_text("x: ?a");
    let expected = Value::Pfxop(Pfxop::Defined, ident("a"));
    assert_eq!(file.items, vec![("x".to_string(), var(expected))]);
}

#[test]
fn relop_does_not_extend_to_a_third_atom() {
    let err = parse(lex("x: a >= b >= c").unwrap()).unwrap_err();
    let (tok, _) = err.0.unwrap();
    assert_eq!(tok, Token::RELOP(Relop::Geq));
}
