//! Feeding the printed JSON to an independent JSON parser and rebuilding
//! the information from what it returns.  The only loss the encoding
//! allows is the list/group distinction, which both become arrays.

use opam_file_format::lexer::lex;
use opam_file_format::parser::parse;
use opam_file_format::printer::json::print_json;

fn reparsed(text: &str) -> serde_json::Value {
    let file = parse(lex(text).unwrap()).unwrap();
    let printed = print_json(&file);
    serde_json::from_str(&printed).unwrap()
}

#[test]
fn reparsing_recovers_atoms() {
    let doc = reparsed("a: 1\nb: true\nc: \"s\"\nd: ident");
    assert_eq!(doc["a"], serde_json::Value::from(1i64));
    assert_eq!(doc["b"], serde_json::Value::from(true));
    assert_eq!(doc["c"], serde_json::Value::from("s"));
    assert_eq!(doc["d"]["__id__"], serde_json::Value::from("ident"));
    assert_eq!(doc.as_object().unwrap().len(), 4);
}

#[test]
fn reparsing_keeps_idents_and_strings_apart() {
    let doc = reparsed("a: x\nb: \"x\"");
    assert!(doc["a"].is_object());
    assert!(doc["b"].is_string());
    assert_eq!(doc["a"]["__id__"], doc["b"]);
}

#[test]
fn reparsing_recovers_escaped_text() {
    let doc = reparsed("a: \"q\\\"b\\\\s\\x01e\"");
    assert_eq!(doc["a"], serde_json::Value::from("q\"b\\s\u{1}e"));
}

#[test]
fn reparsing_recovers_nested_structure() {
    let doc = reparsed("d: \"pkg\" {>= \"2.0\" & < \"3.0\"}");
    let opt = &doc["d"];
    assert_eq!(opt["__value__"], serde_json::Value::from("pkg"));
    let cons = &opt["__options__"][0]["and"];
    assert_eq!(cons[0]["geq"], serde_json::Value::from("2.0"));
    assert_eq!(cons[1]["lt"], serde_json::Value::from("3.0"));
}

#[test]
fn reparsing_recovers_sections() {
    let doc = reparsed("s \"n\" {a: 1\nt {b: 2}}");
    assert_eq!(doc["s"]["__name__"], serde_json::Value::from("n"));
    assert_eq!(doc["s"]["a"], serde_json::Value::from(1i64));
    assert_eq!(doc["s"]["t"]["b"], serde_json::Value::from(2i64));
}

#[test]
fn list_and_group_reparse_to_the_same_array() {
    let list = reparsed("x: [a 1]");
    let group = reparsed("x: (a 1)");
    assert_eq!(list, group);
    assert!(list["x"].is_array());
}

#[test]
fn reparsing_recovers_extreme_integers() {
    let doc = reparsed("a: -9223372036854775808\nb: 9223372036854775807");
    assert_eq!(doc["a"], serde_json::Value::from(i64::MIN));
    assert_eq!(doc["b"], serde_json::Value::from(i64::MAX));
}
