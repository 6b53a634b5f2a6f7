use opam_file_format::lexer::lex;
use opam_file_format::parser::parse;
use opam_file_format::printer::json::{print_json, JsonPrinter};

fn json_of(text: &str) -> String {
    let file = parse(lex(text).unwrap()).unwrap();
    print_json(&file)
}

#[test]
fn ident_is_encoded_as_marker_object() {
    assert_eq!(json_of("x: y"), "{\"x\":{\"__id__\":\"y\"}}");
}

#[test]
fn string_is_encoded_as_bare_string() {
    assert_eq!(json_of("x: \"y\""), "{\"x\":\"y\"}");
}

#[test]
fn atoms_in_order() {
    assert_eq!(
        json_of("a: 1\nb: true\nc: \"s\""),
        "{\"a\":1,\"b\":true,\"c\":\"s\"}"
    );
}

#[test]
fn duplicate_key_prints_once_in_first_position() {
    assert_eq!(json_of("a: 1\nb: 2\na: 3"), "{\"a\":3,\"b\":2}");
}

#[test]
fn negative_and_extreme_integers() {
    assert_eq!(json_of("a: -42"), "{\"a\":-42}");
    assert_eq!(
        json_of("a: -9223372036854775808\nb: 9223372036854775807"),
        "{\"a\":-9223372036854775808,\"b\":9223372036854775807}"
    );
}

#[test]
fn relop_object() {
    assert_eq!(
        json_of("x: a >= b"),
        "{\"x\":{\"geq\":[{\"__id__\":\"a\"},{\"__id__\":\"b\"}]}}"
    );
}

#[test]
fn prefix_relop_object() {
    assert_eq!(json_of("x: < \"1\""), "{\"x\":{\"lt\":\"1\"}}");
}

#[test]
fn pfxop_object() {
    assert_eq!(json_of("x: !a"), "{\"x\":{\"not\":{\"__id__\":\"a\"}}}");
}

#[test]
fn logop_object() {
    assert_eq!(
        json_of("x: a | b"),
        "{\"x\":{\"or\":[{\"__id__\":\"a\"},{\"__id__\":\"b\"}]}}"
    );
}

#[test]
fn envop_object() {
    assert_eq!(
        json_of("x: a := b"),
        "{\"x\":{\"colon_eq\":[{\"__id__\":\"a\"},{\"__id__\":\"b\"}]}}"
    );
}

#[test]
fn list_and_group_both_become_arrays() {
    assert_eq!(json_of("x: [a \"b\" 3]"), "{\"x\":[{\"__id__\":\"a\"},\"b\",3]}");
    assert_eq!(json_of("x: (a \"b\" 3)"), "{\"x\":[{\"__id__\":\"a\"},\"b\",3]}");
}

#[test]
fn empty_list_is_an_empty_array() {
    assert_eq!(json_of("x: []"), "{\"x\":[]}");
}

#[test]
fn option_object() {
    assert_eq!(
        json_of("x: \"p\" {a b}"),
        "{\"x\":{\"__value__\":\"p\",\"__options__\":[{\"__id__\":\"a\"},{\"__id__\":\"b\"}]}}"
    );
}

#[test]
fn anonymous_section_object() {
    assert_eq!(json_of("s {a: 1}"), "{\"s\":{\"a\":1}}");
}

#[test]
fn named_section_appends_name_key() {
    assert_eq!(json_of("s \"n\" {a: 1}"), "{\"s\":{\"a\":1,\"__name__\":\"n\"}}");
}

#[test]
fn named_empty_section_has_only_name_key() {
    assert_eq!(json_of("s \"n\" {}"), "{\"s\":{\"__name__\":\"n\"}}");
}

#[test]
fn string_contents_are_escaped() {
    assert_eq!(
        json_of("x: \"a\\\"b\\\\c\""),
        "{\"x\":\"a\\\"b\\\\c\"}"
    );
}

#[test]
fn control_characters_are_escaped() {
    assert_eq!(json_of("x: \"a\\x09b\\x01c\""), "{\"x\":\"a\\tb\\u0001c\"}");
}

#[test]
fn newline_in_triple_string_is_escaped() {
    assert_eq!(json_of("x: \"\"\"a\nb\"\"\""), "{\"x\":\"a\\nb\"}");
}

#[test]
fn empty_file_prints_an_empty_object() {
    assert_eq!(json_of(""), "{}");
}

#[test]
fn printer_wrapper_prints_the_wrapped_file() {
    let file = parse(lex("a: 1").unwrap()).unwrap();
    let printer = JsonPrinter::new(&file);
    assert_eq!(printer.to_json_string(), "{\"a\":1}");
}
