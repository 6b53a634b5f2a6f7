use opam_file_format::lexer::{lex, parse_id, parse_id_lodash, Envop, Logop, Pfxop, Relop, Span, Token};

fn sp(start: usize, end: usize) -> Span {
    Span { start, end }
}

#[test]
fn nested_comment_lexes_to_zero_tokens() {
    let toks = lex("(* x (* y *) z *)").unwrap();
    assert_eq!(toks, vec![]);
}

#[test]
fn comment_before_token_is_discarded() {
    let toks = lex("(* c *) a").unwrap();
    assert_eq!(toks, vec![(Token::IDENT("a".to_string()), sp(8, 9))]);
}

#[test]
fn unterminated_comment_is_an_error() {
    assert_eq!(lex("(* x (* y *)"), Err(sp(0, 2)));
}

#[test]
fn line_comment_is_discarded() {
    let toks = lex("# hello\na").unwrap();
    assert_eq!(toks, vec![(Token::IDENT("a".to_string()), sp(8, 9))]);
}

#[test]
fn integer_with_underscores() {
    let toks = lex("1_000").unwrap();
    assert_eq!(toks, vec![(Token::INT(1000), sp(0, 5))]);
}

#[test]
fn negative_integer() {
    let toks = lex("-42").unwrap();
    assert_eq!(toks, vec![(Token::INT(-42), sp(0, 3))]);
}

#[test]
fn smallest_integer() {
    let toks = lex("-9223372036854775808").unwrap();
    assert_eq!(toks, vec![(Token::INT(i64::MIN), sp(0, 20))]);
}

#[test]
fn integer_overflow_is_an_error() {
    assert_eq!(lex("99999999999999999999"), Err(sp(0, 20)));
}

#[test]
fn underscores_only_is_an_error() {
    assert_eq!(lex("__"), Err(sp(0, 2)));
}

#[test]
fn maximal_munch_relop() {
    let toks = lex("a>=b").unwrap();
    assert_eq!(
        toks,
        vec![
            (Token::IDENT("a".to_string()), sp(0, 1)),
            (Token::RELOP(Relop::Geq), sp(1, 3)),
            (Token::IDENT("b".to_string()), sp(3, 4)),
        ]
    );
}

#[test]
fn operator_tokens() {
    let cases: Vec<(&str, Token)> = vec![
        ("=", Token::RELOP(Relop::Eq)),
        ("!=", Token::RELOP(Relop::Neq)),
        (">=", Token::RELOP(Relop::Geq)),
        (">", Token::RELOP(Relop::Gt)),
        ("<=", Token::RELOP(Relop::Leq)),
        ("<", Token::RELOP(Relop::Lt)),
        ("~", Token::RELOP(Relop::Geq)),
        ("&", Token::LOGOP(Logop::And)),
        ("|", Token::LOGOP(Logop::Or)),
        ("!", Token::PFXOP(Pfxop::Not)),
        ("?", Token::PFXOP(Pfxop::Defined)),
        ("+=", Token::ENVOP(Envop::PlusEq)),
        ("=+", Token::ENVOP(Envop::EqPlus)),
        ("=+=", Token::ENVOP(Envop::EqPlusEq)),
        (":=", Token::ENVOP(Envop::ColonEq)),
        ("=:", Token::ENVOP(Envop::EqColon)),
    ];
    for (text, expected) in cases {
        let toks = lex(text).unwrap();
        assert_eq!(toks.len(), 1, "lexing {:?}", text);
        assert_eq!(toks[0].0, expected, "lexing {:?}", text);
        assert_eq!(toks[0].1, sp(0, text.len()), "lexing {:?}", text);
    }
}

#[test]
fn punctuation_tokens() {
    let toks = lex("{ } [ ] ( ) :").unwrap();
    let kinds: Vec<Token> = toks.into_iter().map(|p| p.0).collect();
    assert_eq!(
        kinds,
        vec![
            Token::LBRACE,
            Token::RBRACE,
            Token::LBRACKET,
            Token::RBRACKET,
            Token::LPAR,
            Token::RPAR,
            Token::COLON,
        ]
    );
}

#[test]
fn qualifier_fusion() {
    let toks = lex("pkg:version").unwrap();
    assert_eq!(toks, vec![(Token::IDENT("pkg:version".to_string()), sp(0, 11))]);
}

#[test]
fn spaced_colon_is_not_fused() {
    let toks = lex("pkg : \"x\"").unwrap();
    assert_eq!(
        toks,
        vec![
            (Token::IDENT("pkg".to_string()), sp(0, 3)),
            (Token::COLON, sp(4, 5)),
            (Token::STRING("x".to_string()), sp(6, 9)),
        ]
    );
}

#[test]
fn colon_before_digits_is_not_fused() {
    let toks = lex("pkg:123").unwrap();
    assert_eq!(
        toks,
        vec![
            (Token::IDENT("pkg".to_string()), sp(0, 3)),
            (Token::COLON, sp(3, 4)),
            (Token::INT(123), sp(4, 7)),
        ]
    );
}

#[test]
fn plus_joined_identifier() {
    let toks = lex("ocaml+flambda").unwrap();
    assert_eq!(toks, vec![(Token::IDENT("ocaml+flambda".to_string()), sp(0, 13))]);
}

#[test]
fn underscore_identifier() {
    let toks = lex("_").unwrap();
    assert_eq!(toks, vec![(Token::IDENT("_".to_string()), sp(0, 1))]);
}

#[test]
fn dashed_identifier() {
    let toks = lex("conf-gmp4").unwrap();
    assert_eq!(toks, vec![(Token::IDENT("conf-gmp4".to_string()), sp(0, 9))]);
}

#[test]
fn booleans_and_boolean_prefix() {
    let toks = lex("true false truex").unwrap();
    assert_eq!(
        toks,
        vec![
            (Token::BOOL(true), sp(0, 4)),
            (Token::BOOL(false), sp(5, 10)),
            (Token::IDENT("truex".to_string()), sp(11, 16)),
        ]
    );
}

#[test]
fn unterminated_string_is_a_lex_error() {
    let r = lex("foo: \"abc");
    assert_eq!(r, Err(sp(5, 6)));
}

#[test]
fn string_escapes_yield_the_escaped_character() {
    let toks = lex("\"a\\\"b\\\\c\\nd\"").unwrap();
    assert_eq!(toks.len(), 1);
    assert_eq!(toks[0].0, Token::STRING("a\"b\\cnd".to_string()));
}

#[test]
fn decimal_and_hex_escapes() {
    let toks = lex("\"\\065\\x41\"").unwrap();
    assert_eq!(toks, vec![(Token::STRING("AA".to_string()), sp(0, 10))]);
}

#[test]
fn line_continuation_collapses_indentation() {
    let toks = lex("\"a\\\n   b\"").unwrap();
    assert_eq!(toks, vec![(Token::STRING("a\nb".to_string()), sp(0, 9))]);
}

#[test]
fn bad_escape_is_an_error_at_the_escape() {
    let r = lex("\"a\\qb\"");
    assert_eq!(r, Err(sp(2, 4)));
}

#[test]
fn triple_string_embeds_quotes_and_newlines() {
    let toks = lex("\"\"\"a\"b\nc\"\"\"").unwrap();
    assert_eq!(toks, vec![(Token::STRING("a\"b\nc".to_string()), sp(0, 11))]);
}

#[test]
fn crlf_is_normalized_in_strings() {
    let toks = lex("\"a\r\nb\"").unwrap();
    assert_eq!(toks, vec![(Token::STRING("a\nb".to_string()), sp(0, 6))]);
}

#[test]
fn empty_string_from_two_quotes() {
    let toks = lex("\"\"").unwrap();
    assert_eq!(toks, vec![(Token::STRING(String::new()), sp(0, 2))]);
}

#[test]
fn invalid_character_is_an_error() {
    assert_eq!(lex("a %"), Err(sp(2, 3)));
}

#[test]
fn parse_id_takes_the_word_prefix() {
    assert_eq!(parse_id("abc def"), Some(3));
    assert_eq!(parse_id("a-b1 "), Some(4));
    assert_eq!(parse_id("123"), None);
    assert_eq!(parse_id(""), None);
}

#[test]
fn parse_id_lodash_accepts_a_bare_underscore() {
    assert_eq!(parse_id_lodash("_"), Some(1));
    assert_eq!(parse_id_lodash("_1"), Some(1));
    assert_eq!(parse_id_lodash("abc"), Some(3));
    assert_eq!(parse_id_lodash("-"), None);
}

#[test]
fn qualifier_after_plus_chain() {
    let toks = lex("a+b:c").unwrap();
    assert_eq!(toks, vec![(Token::IDENT("a+b:c".to_string()), sp(0, 5))]);
}

#[test]
fn underscore_with_qualifier() {
    let toks = lex("_:x").unwrap();
    assert_eq!(toks, vec![(Token::IDENT("_:x".to_string()), sp(0, 3))]);
}

#[test]
fn dangling_plus_is_an_error() {
    assert_eq!(lex("a+"), Err(sp(1, 2)));
}

#[test]
fn underscore_digits_is_an_integer() {
    let toks = lex("_1").unwrap();
    assert_eq!(toks, vec![(Token::INT(1), sp(0, 2))]);
}

#[test]
fn negative_zero() {
    let toks = lex("-0").unwrap();
    assert_eq!(toks, vec![(Token::INT(0), sp(0, 2))]);
}

#[test]
fn largest_integer_plus_one_is_an_error() {
    assert_eq!(lex("9223372036854775808"), Err(sp(0, 19)));
}

#[test]
fn equals_then_question_mark_are_separate_tokens() {
    let toks = lex("=?").unwrap();
    assert_eq!(
        toks,
        vec![
            (Token::RELOP(Relop::Eq), sp(0, 1)),
            (Token::PFXOP(Pfxop::Defined), sp(1, 2)),
        ]
    );
}

#[test]
fn question_mark_then_equals_are_separate_tokens() {
    let toks = lex("?=").unwrap();
    assert_eq!(
        toks,
        vec![
            (Token::PFXOP(Pfxop::Defined), sp(0, 1)),
            (Token::RELOP(Relop::Eq), sp(1, 2)),
        ]
    );
}
