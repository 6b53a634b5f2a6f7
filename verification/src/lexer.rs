//! Tokenizer for the opam file syntax.
//!
//! `lex` turns source text into a sequence of tokens with character-offset
//! spans, or
//! reports the span of the first lexical error.  The exact token boundaries
//! and contents are defined by the specification functions in `scan`, and
//! `lex`'s contract states that it computes exactly that tokenization.

use vstd::prelude::*;

pub mod scan;

verus! {

/// Relational operator kinds: `=`, `!=`, `>=` (also `~`), `>`, `<=`, `<`.
#[derive(Clone, Copy, Debug, PartialEq, Eq, Structural)]
pub enum Relop {
    Eq,
    Neq,
    Geq,
    Gt,
    Leq,
    Lt,
}

/// Prefix operator kinds: `!` and `?`.
#[derive(Clone, Copy, Debug, PartialEq, Eq, Structural)]
pub enum Pfxop {
    Not,
    Defined,
}

/// Environment-binding operator kinds: `=`, `+=`, `=+`, `=+=`, `:=`, `=:`.
#[derive(Clone, Copy, Debug, PartialEq, Eq, Structural)]
pub enum Envop {
    Eq,
    PlusEq,
    EqPlus,
    EqPlusEq,
    ColonEq,
    EqColon,
}

/// Logical operator kinds: `&` and `|`.
#[derive(Clone, Copy, Debug, PartialEq, Eq, Structural)]
pub enum Logop {
    And,
    Or,
}

/// A half-open range `[start, end)` of character offsets into the source.
#[derive(Clone, Copy, Debug, PartialEq, Eq, Structural)]
pub struct Span {
    pub start: usize,
    pub end: usize,
}

/// Mathematical model of a `Span`: the same two offsets as unbounded integers.
pub struct SpanModel {
    pub start: int,
    pub end: int,
}

impl View for Span {
    type V = SpanModel;

    open spec fn view(&self) -> SpanModel {
        SpanModel { start: self.start as int, end: self.end as int }
    }
}

/// A lexical token.  Comments and whitespace are never emitted as tokens.
#[derive(Debug, PartialEq)]
pub enum Token {
    COLON,
    LBRACE,
    RBRACE,
    LBRACKET,
    RBRACKET,
    LPAR,
    RPAR,
    STRING(String),
    BOOL(bool),
    INT(i64),
    IDENT(String),
    RELOP(Relop),
    LOGOP(Logop),
    PFXOP(Pfxop),
    ENVOP(Envop),
}

/// Mathematical model of a `Token`: text as character sequences, integers
/// as unbounded integers.
pub enum TokenModel {
    Colon,
    LBrace,
    RBrace,
    LBracket,
    RBracket,
    LPar,
    RPar,
    Str(Seq<char>),
    Bool(bool),
    Int(int),
    Ident(Seq<char>),
    Relop(Relop),
    Logop(Logop),
    Pfxop(Pfxop),
    Envop(Envop),
}

impl View for Token {
    type V = TokenModel;

    open spec fn view(&self) -> TokenModel {
        match self {
            Token::COLON => TokenModel::Colon,
            Token::LBRACE => TokenModel::LBrace,
            Token::RBRACE => TokenModel::RBrace,
            Token::LBRACKET => TokenModel::LBracket,
            Token::RBRACKET => TokenModel::RBracket,
            Token::LPAR => TokenModel::LPar,
            Token::RPAR => TokenModel::RPar,
            Token::STRING(s) => TokenModel::Str(s@),
            Token::BOOL(b) => TokenModel::Bool(*b),
            Token::INT(i) => TokenModel::Int(*i as int),
            Token::IDENT(s) => TokenModel::Ident(s@),
            Token::RELOP(op) => TokenModel::Relop(*op),
            Token::LOGOP(op) => TokenModel::Logop(*op),
            Token::PFXOP(op) => TokenModel::Pfxop(*op),
            Token::ENVOP(op) => TokenModel::Envop(*op),
        }
    }
}

/// The model of an emitted token list: each token beside its span.
pub open spec fn tokens_view(ts: Seq<(Token, Span)>) -> Seq<(TokenModel, SpanModel)> {
    ts.map_values(|p: (Token, Span)| (p.0@, p.1@))
}

// ---------------------------------------------------------------------------
// Executable scanners, each verified against its specification in `scan`
// ---------------------------------------------------------------------------

fn is_digit_x(c: char) -> (r: bool)
    ensures
        r == scan::is_digit(c),
{
    '0' <= c && c <= '9'
}

fn is_hex_digit_x(c: char) -> (r: bool)
    ensures
        r == scan::is_hex_digit(c),
{
    ('0' <= c && c <= '9') || ('a' <= c && c <= 'f') || ('A' <= c && c <= 'F')
}

fn is_word_char_x(c: char) -> (r: bool)
    ensures
        r == scan::is_word_char(c),
{
    ('a' <= c && c <= 'z') || ('A' <= c && c <= 'Z') || ('0' <= c && c <= '9') || c == '_'
        || c == '-'
}

fn space_end_x(s: &Vec<char>, i: usize) -> (r: usize)
    requires
        i <= s@.len(),
    ensures
        r as int == scan::space_end(s@, i as int),
        i <= r <= s@.len(),
{
    let mut k: usize = i;
    while k < s.len() && s[k] == ' '
        invariant
            i <= k <= s@.len(),
            scan::space_end(s@, i as int) == scan::space_end(s@, k as int),
        decreases s@.len() - k,
    {
        k = k + 1;
    }
    k
}

fn line_comment_end_x(s: &Vec<char>, i: usize) -> (r: usize)
    requires
        i <= s@.len(),
    ensures
        r as int == scan::line_comment_end(s@, i as int),
        i <= r <= s@.len(),
{
    let mut k: usize = i;
    while k < s.len() && s[k] != '\n'
        invariant
            i <= k <= s@.len(),
            scan::line_comment_end(s@, i as int) == scan::line_comment_end(s@, k as int),
        decreases s@.len() - k,
    {
        k = k + 1;
    }
    k
}

fn word_end_x(s: &Vec<char>, i: usize) -> (r: usize)
    requires
        i <= s@.len(),
    ensures
        r as int == scan::word_end(s@, i as int),
        i <= r <= s@.len(),
{
    let mut k: usize = i;
    while k < s.len() && is_word_char_x(s[k])
        invariant
            i <= k <= s@.len(),
            scan::word_end(s@, i as int) == scan::word_end(s@, k as int),
        decreases s@.len() - k,
    {
        k = k + 1;
    }
    k
}

fn digit_run_end_x(s: &Vec<char>, i: usize) -> (r: usize)
    requires
        i <= s@.len(),
    ensures
        r as int == scan::digit_run_end(s@, i as int),
        i <= r <= s@.len(),
{
    let mut k: usize = i;
    while k < s.len() && (is_digit_x(s[k]) || s[k] == '_')
        invariant
            i <= k <= s@.len(),
            scan::digit_run_end(s@, i as int) == scan::digit_run_end(s@, k as int),
        decreases s@.len() - k,
    {
        k = k + 1;
    }
    k
}

fn has_alpha_x(s: &Vec<char>, i: usize, j: usize) -> (r: bool)
    requires
        i <= j <= s@.len(),
    ensures
        r == scan::has_alpha(s@, i as int, j as int),
{
    let mut k: usize = i;
    while k < j
        invariant
            i <= k <= j <= s@.len(),
            forall|m: int| i <= m < k ==> !scan::is_alpha(#[trigger] s@[m]),
        decreases j - k,
    {
        let c = s[k];
        if ('a' <= c && c <= 'z') || ('A' <= c && c <= 'Z') {
            proof {
                assert(i <= k < j && scan::is_alpha(s@[k as int]));
            }
            return true;
        }
        k = k + 1;
    }
    false
}

fn comment_end_x(s: &Vec<char>, start: usize) -> (r: Option<usize>)
    requires
        start <= s@.len(),
    ensures
        match r {
            Some(j) => scan::comment_end(s@, start as int, 1) == Some(j as int) && start < j
                <= s@.len(),
            None => scan::comment_end(s@, start as int, 1) == None::<int>,
        },
{
    let mut i: usize = start;
    let mut depth: usize = 1;
    while i < s.len()
        invariant
            start <= i <= s@.len(),
            1 <= depth,
            2 * (depth - 1) <= i - start,
            scan::comment_end(s@, start as int, 1) == scan::comment_end(
                s@,
                i as int,
                depth as int,
            ),
        decreases s@.len() - i,
    {
        if i + 1 < s.len() && s[i] == '(' && s[i + 1] == '*' {
            i = i + 2;
            depth = depth + 1;
        } else if i + 1 < s.len() && s[i] == '*' && s[i + 1] == ')' {
            if depth == 1 {
                return Some(i + 2);
            }
            depth = depth - 1;
            i = i + 2;
        } else {
            i = i + 1;
        }
    }
    None
}

fn scan_escape_x(s: &Vec<char>, j: usize) -> (r: Option<(char, usize)>)
    requires
        j <= s@.len(),
    ensures
        match r {
            Some(p) => scan::scan_escape(s@, j as int) == Some((p.0, p.1 as int)) && j < p.1
                <= s@.len(),
            None => scan::scan_escape(s@, j as int) == None::<(char, int)>,
        },
{
    if j >= s.len() {
        return None;
    }
    let c = s[j];
    if c == '\n' {
        let e = space_end_x(s, j + 1);
        return Some(('\n', e));
    }
    if c == '\r' && j + 1 < s.len() && s[j + 1] == '\n' {
        let e = space_end_x(s, j + 2);
        return Some(('\n', e));
    }
    if c == '"' || c == '\'' || c == '\\' || c == 'n' || c == '\r' || c == '\t' || c == ' ' {
        return Some((c, j + 1));
    }
    if is_digit_x(c) {
        if s.len() - j >= 3 && is_digit_x(s[j + 1]) && is_digit_x(s[j + 2]) {
            let v: u32 = 100 * (c as u32 - 48) + 10 * (s[j + 1] as u32 - 48) + (s[j + 2] as u32
                - 48);
            let ch = crate::chars::char_from_code(v);
            return Some((ch, j + 3));
        }
        return None;
    }
    if c == 'x' {
        if s.len() - j >= 3 && is_hex_digit_x(s[j + 1]) && is_hex_digit_x(s[j + 2]) {
            let h1 = hex_val_x(s[j + 1]);
            let h2 = hex_val_x(s[j + 2]);
            let ch = crate::chars::char_from_code(16 * h1 + h2);
            return Some((ch, j + 3));
        }
        return None;
    }
    None
}

fn hex_val_x(c: char) -> (r: u32)
    requires
        scan::is_hex_digit(c),
    ensures
        r as int == scan::hex_val(c),
        r <= 15,
{
    if '0' <= c && c <= '9' {
        c as u32 - 48
    } else if 'a' <= c && c <= 'f' {
        c as u32 - 97 + 10
    } else {
        c as u32 - 65 + 10
    }
}

fn scan_str_x(s: &Vec<char>, start: usize, triple: bool) -> (r: Result<
    (String, usize),
    Option<usize>,
>)
    requires
        start <= s@.len(),
    ensures
        match r {
            Ok(p) => scan::scan_str(s@, start as int, triple, Seq::empty()) == (scan::StrScan::Done {
                text: p.0@,
                next: p.1 as int,
            }) && start < p.1 <= s@.len(),
            Err(e) => match e {
                Some(at) => scan::scan_str(s@, start as int, triple, Seq::empty())
                    == (scan::StrScan::BadEscape { at: at as int }) && start <= at < s@.len(),
                None => scan::scan_str(s@, start as int, triple, Seq::empty())
                    == scan::StrScan::Unterminated,
            },
        },
{
    let mut i: usize = start;
    let mut acc: String = String::new();
    while i < s.len()
        invariant
            start <= i <= s@.len(),
            scan::scan_str(s@, start as int, triple, Seq::empty()) == scan::scan_str(
                s@,
                i as int,
                triple,
                acc@,
            ),
        decreases s@.len() - i,
    {
        let c = s[i];
        if triple {
            if s.len() - i >= 3 && c == '"' && s[i + 1] == '"' && s[i + 2] == '"' {
                return Ok((acc, i + 3));
            }
        } else {
            if c == '"' {
                return Ok((acc, i + 1));
            }
        }
        if c == '\\' {
            match scan_escape_x(s, i + 1) {
                Some(p) => {
                    crate::chars::push_char(&mut acc, p.0);
                    i = p.1;
                },
                None => {
                    return Err(Some(i));
                },
            }
        } else if c == '\r' && i + 1 < s.len() && s[i + 1] == '\n' {
            crate::chars::push_char(&mut acc, '\n');
            i = i + 2;
        } else {
            crate::chars::push_char(&mut acc, c);
            i = i + 1;
        }
    }
    Err(None)
}

fn id_end_x(s: &Vec<char>, i: usize) -> (r: Option<usize>)
    requires
        i <= s@.len(),
    ensures
        match r {
            Some(j) => scan::id_end(s@, i as int) == Some(j as int) && i < j <= s@.len(),
            None => scan::id_end(s@, i as int) == None::<int>,
        },
{
    let w = word_end_x(s, i);
    if w > i && has_alpha_x(s, i, w) {
        Some(w)
    } else {
        None
    }
}

fn lodash_end_x(s: &Vec<char>, i: usize) -> (r: Option<usize>)
    requires
        i <= s@.len(),
    ensures
        match r {
            Some(j) => scan::lodash_end(s@, i as int) == Some(j as int) && i < j <= s@.len(),
            None => scan::lodash_end(s@, i as int) == None::<int>,
        },
{
    match id_end_x(s, i) {
        Some(j) => Some(j),
        None => {
            if i < s.len() && s[i] == '_' {
                Some(i + 1)
            } else {
                None
            }
        },
    }
}

fn plus_chain_end_x(s: &Vec<char>, i: usize) -> (r: usize)
    requires
        i <= s@.len(),
    ensures
        r as int == scan::plus_chain_end(s@, i as int),
        i <= r <= s@.len(),
    decreases s@.len() - i,
{
    if i < s.len() && s[i] == '+' {
        match lodash_end_x(s, i + 1) {
            Some(j) => plus_chain_end_x(s, j),
            None => i,
        }
    } else {
        i
    }
}

fn qual_end_x(s: &Vec<char>, i: usize) -> (r: usize)
    requires
        i <= s@.len(),
    ensures
        r as int == scan::qual_end(s@, i as int),
        i <= r <= s@.len(),
{
    if i < s.len() && s[i] == ':' {
        match id_end_x(s, i + 1) {
            Some(j) => j,
            None => i,
        }
    } else {
        i
    }
}

fn ident_end_x(s: &Vec<char>, i: usize) -> (r: Option<usize>)
    requires
        i <= s@.len(),
    ensures
        match r {
            Some(j) => scan::ident_end(s@, i as int) == Some(j as int) && i < j <= s@.len(),
            None => scan::ident_end(s@, i as int) == None::<int>,
        },
{
    match lodash_end_x(s, i) {
        Some(first) => Some(qual_end_x(s, plus_chain_end_x(s, first))),
        None => None,
    }
}

fn int_end_x(s: &Vec<char>, i: usize) -> (r: usize)
    requires
        i <= s@.len(),
    ensures
        r as int == scan::int_end(s@, i as int),
        i <= r <= s@.len(),
{
    let a: usize = if i < s.len() && s[i] == '-' {
        i + 1
    } else {
        i
    };
    let e = digit_run_end_x(s, a);
    if e > a {
        e
    } else {
        i
    }
}

fn int_val_x(s: &Vec<char>, i: usize, e: usize) -> (r: Option<i64>)
    requires
        i < e <= s@.len(),
        scan::int_end(s@, i as int) == e as int,
    ensures
        match r {
            Some(v) => scan::int_token_val(s@, i as int, e as int) == Some(v as int),
            None => scan::int_token_val(s@, i as int, e as int) == None::<int>,
        },
{
    let neg = s[i] == '-';
    let a: usize = if neg {
        i + 1
    } else {
        i
    };
    proof {
        scan::lemma_digit_run_end(s@, a as int);
        scan::lemma_digit_run_chars(s@, a as int);
        assert(e as int == scan::digit_run_end(s@, a as int));
    }
    let cap: u64 = 922337203685477580;
    let rem: u64 = if neg {
        8
    } else {
        7
    };
    let ghost limit: int = if neg {
        9223372036854775808int
    } else {
        9223372036854775807int
    };
    let mut mag: u64 = 0;
    let mut seen: bool = false;
    let mut k: usize = a;
    while k < e
        invariant
            i < e <= s@.len(),
            a <= k <= e,
            a as int == if neg {
                i as int + 1
            } else {
                i as int
            },
            neg == (s@[i as int] == '-'),
            e as int == scan::digit_run_end(s@, a as int),
            forall|m: int| a <= m < e ==> scan::digit_or_underscore(#[trigger] s@[m]),
            cap == 922337203685477580,
            rem == if neg {
                8u64
            } else {
                7u64
            },
            limit == if neg {
                9223372036854775808int
            } else {
                9223372036854775807int
            },
            mag as int == scan::dec_val(
                scan::strip_underscores(s@.subrange(a as int, k as int)),
            ),
            mag as int <= limit,
            seen == (scan::strip_underscores(s@.subrange(a as int, k as int)).len() > 0),
        decreases e - k,
    {
        let c = s[k];
        let ghost pfx = s@.subrange(a as int, k as int);
        proof {
            assert(s@.subrange(a as int, k as int + 1) =~= pfx.push(c));
            scan::lemma_strip_push(pfx, c);
        }
        if c != '_' {
            proof {
                assert(scan::digit_or_underscore(s@[k as int]));
                assert(scan::is_digit(c));
            }
            let d: u64 = (c as u32 - 48) as u64;
            proof {
                assert(d as int == scan::digit_val(c));
                scan::lemma_dec_val_push(scan::strip_underscores(pfx), c);
            }
            if mag > cap || (mag == cap && d > rem) {
                proof {
                    assert(scan::dec_val(scan::strip_underscores(s@.subrange(a as int, k as int + 1)))
                        > limit);
                    scan::lemma_dec_val_prefix(s@, a as int, k as int + 1, e as int);
                    assert(scan::dec_val(scan::strip_underscores(s@.subrange(a as int, e as int)))
                        > limit);
                }
                return None;
            }
            mag = mag * 10 + d;
            seen = true;
        }
        k = k + 1;
    }
    if !seen {
        return None;
    }
    proof {
        scan::lemma_strip_digits(s@.subrange(a as int, e as int));
        scan::lemma_dec_val_nonneg(scan::strip_underscores(s@.subrange(a as int, e as int)));
    }
    if neg {
        if mag == 9223372036854775808u64 {
            Some(i64::MIN)
        } else {
            Some(-(mag as i64))
        }
    } else {
        Some(mag as i64)
    }
}

/// One scanner step: material to skip, one finished token, or an error span.
enum ScanStep {
    Skip(usize),
    Emit(Token, usize),
    Fail(usize, usize),
}

#[verifier::rlimit(100)]
fn next_token_x(s: &Vec<char>, i: usize) -> (r: ScanStep)
    requires
        i < s@.len(),
    ensures
        match r {
            ScanStep::Skip(n) => scan::next_token(s@, i as int) == (scan::Scan::Skip {
                next: n as int,
            }) && i < n <= s@.len(),
            ScanStep::Emit(t, e) => scan::next_token(s@, i as int) == (scan::Scan::Tok {
                t: t@,
                end: e as int,
            }) && i < e <= s@.len(),
            ScanStep::Fail(x, y) => scan::next_token(s@, i as int) == (scan::Scan::Fail {
                at: x as int,
                upto: y as int,
            }),
        },
{
    let _len = s.len();
    let c = s[i];
    if c == ' ' || c == '\t' || c == '\r' || c == '\n' {
        ScanStep::Skip(i + 1)
    } else if c == '#' {
        ScanStep::Skip(line_comment_end_x(s, i + 1))
    } else if c == '(' && i + 1 < s.len() && s[i + 1] == '*' {
        match comment_end_x(s, i + 2) {
            Some(j) => ScanStep::Skip(j),
            None => ScanStep::Fail(i, i + 2),
        }
    } else if c == '(' {
        ScanStep::Emit(Token::LPAR, i + 1)
    } else if c == ')' {
        ScanStep::Emit(Token::RPAR, i + 1)
    } else if c == '{' {
        ScanStep::Emit(Token::LBRACE, i + 1)
    } else if c == '}' {
        ScanStep::Emit(Token::RBRACE, i + 1)
    } else if c == '[' {
        ScanStep::Emit(Token::LBRACKET, i + 1)
    } else if c == ']' {
        ScanStep::Emit(Token::RBRACKET, i + 1)
    } else if c == '"' {
        if s.len() - i >= 3 && s[i + 1] == '"' && s[i + 2] == '"' {
            match scan_str_x(s, i + 3, true) {
                Ok(p) => ScanStep::Emit(Token::STRING(p.0), p.1),
                Err(bad) => match bad {
                    Some(at) => ScanStep::Fail(
                        at,
                        if s.len() - at >= 2 {
                            at + 2
                        } else {
                            s.len()
                        },
                    ),
                    None => ScanStep::Fail(i, i + 3),
                },
            }
        } else {
            match scan_str_x(s, i + 1, false) {
                Ok(p) => ScanStep::Emit(Token::STRING(p.0), p.1),
                Err(bad) => match bad {
                    Some(at) => ScanStep::Fail(
                        at,
                        if s.len() - at >= 2 {
                            at + 2
                        } else {
                            s.len()
                        },
                    ),
                    None => ScanStep::Fail(i, i + 1),
                },
            }
        }
    } else if c == ':' {
        if i + 1 < s.len() && s[i + 1] == '=' {
            ScanStep::Emit(Token::ENVOP(Envop::ColonEq), i + 2)
        } else {
            ScanStep::Emit(Token::COLON, i + 1)
        }
    } else if c == '!' {
        if i + 1 < s.len() && s[i + 1] == '=' {
            ScanStep::Emit(Token::RELOP(Relop::Neq), i + 2)
        } else {
            ScanStep::Emit(Token::PFXOP(Pfxop::Not), i + 1)
        }
    } else if c == '?' {
        ScanStep::Emit(Token::PFXOP(Pfxop::Defined), i + 1)
    } else if c == '>' {
        if i + 1 < s.len() && s[i + 1] == '=' {
            ScanStep::Emit(Token::RELOP(Relop::Geq), i + 2)
        } else {
            ScanStep::Emit(Token::RELOP(Relop::Gt), i + 1)
        }
    } else if c == '<' {
        if i + 1 < s.len() && s[i + 1] == '=' {
            ScanStep::Emit(Token::RELOP(Relop::Leq), i + 2)
        } else {
            ScanStep::Emit(Token::RELOP(Relop::Lt), i + 1)
        }
    } else if c == '~' {
        ScanStep::Emit(Token::RELOP(Relop::Geq), i + 1)
    } else if c == '=' {
        if i + 1 < s.len() && s[i + 1] == '+' {
            if s.len() - i >= 3 && s[i + 2] == '=' {
                ScanStep::Emit(Token::ENVOP(Envop::EqPlusEq), i + 3)
            } else {
                ScanStep::Emit(Token::ENVOP(Envop::EqPlus), i + 2)
            }
        } else if i + 1 < s.len() && s[i + 1] == ':' {
            ScanStep::Emit(Token::ENVOP(Envop::EqColon), i + 2)
        } else {
            ScanStep::Emit(Token::RELOP(Relop::Eq), i + 1)
        }
    } else if c == '+' {
        if i + 1 < s.len() && s[i + 1] == '=' {
            ScanStep::Emit(Token::ENVOP(Envop::PlusEq), i + 2)
        } else {
            ScanStep::Fail(i, i + 1)
        }
    } else if c == '&' {
        ScanStep::Emit(Token::LOGOP(Logop::And), i + 1)
    } else if c == '|' {
        ScanStep::Emit(Token::LOGOP(Logop::Or), i + 1)
    } else if is_word_char_x(c) {
        let id_opt = ident_end_x(s, i);
        let ie = int_end_x(s, i);
        let id_len: usize = match id_opt {
            Some(j) => j - i,
            None => 0,
        };
        let int_len: usize = ie - i;
        if id_len == 0 && int_len == 0 {
            ScanStep::Fail(i, i + 1)
        } else if id_len >= int_len {
            let j: usize = i + id_len;
            let ghost text = s@.subrange(i as int, j as int);
            let is_true = id_len == 4 && s[i] == 't' && s[i + 1] == 'r' && s[i + 2] == 'u' && s[i
                + 3] == 'e';
            let is_false = id_len == 5 && s[i] == 'f' && s[i + 1] == 'a' && s[i + 2] == 'l' && s[i
                + 3] == 's' && s[i + 4] == 'e';
            proof {
                if is_true {
                    assert(text =~= scan::true_chars());
                }
                if is_false {
                    assert(text =~= scan::false_chars());
                }
                if text == scan::true_chars() {
                    assert(text.len() == 4);
                    assert(text[0] == 't' && text[1] == 'r' && text[2] == 'u' && text[3] == 'e');
                    assert(s@[i as int] == 't' && s@[i as int + 1] == 'r' && s@[i as int + 2] == 'u'
                        && s@[i as int + 3] == 'e');
                }
                if text == scan::false_chars() {
                    assert(text.len() == 5);
                    assert(text[0] == 'f' && text[1] == 'a' && text[2] == 'l' && text[3] == 's'
                        && text[4] == 'e');
                    assert(s@[i as int] == 'f' && s@[i as int + 1] == 'a' && s@[i as int + 2] == 'l'
                        && s@[i as int + 3] == 's' && s@[i as int + 4] == 'e');
                }
            }
            if is_true {
                ScanStep::Emit(Token::BOOL(true), j)
            } else if is_false {
                ScanStep::Emit(Token::BOOL(false), j)
            } else {
                let text_s = crate::chars::string_of_range(s, i, j);
                ScanStep::Emit(Token::IDENT(text_s), j)
            }
        } else {
            match int_val_x(s, i, ie) {
                Some(v) => ScanStep::Emit(Token::INT(v), ie),
                None => ScanStep::Fail(i, ie),
            }
        }
    } else {
        ScanStep::Fail(i, i + 1)
    }
}

/// Tokenize a whole source text: the ordered tokens, each with its span, or
/// the span of the first lexical error.  The result is exactly the
/// tokenization that `scan::lex_spec` defines.
pub fn lex(input: &str) -> (r: Result<Vec<(Token, Span)>, Span>)
    ensures
        match r {
            Ok(toks) => scan::lex_spec(input@) == Ok::<Seq<(TokenModel, SpanModel)>, SpanModel>(
                tokens_view(toks@),
            ),
            Err(sp) => scan::lex_spec(input@) == Err::<Seq<(TokenModel, SpanModel)>, SpanModel>(
                sp@,
            ),
        },
{
    let s = crate::chars::chars_of(input);
    let mut toks: Vec<(Token, Span)> = Vec::new();
    let mut i: usize = 0;
    proof {
        assert(tokens_view(toks@) =~= Seq::<(TokenModel, SpanModel)>::empty());
    }
    while i < s.len()
        invariant
            s@ == input@,
            i <= s@.len(),
            scan::lex_at(s@, 0, Seq::empty()) == scan::lex_at(s@, i as int, tokens_view(toks@)),
        decreases s@.len() - i,
    {
        match next_token_x(&s, i) {
            ScanStep::Skip(n) => {
                i = n;
            },
            ScanStep::Emit(t, e) => {
                let sp = Span { start: i, end: e };
                proof {
                    assert(tokens_view(toks@.push((t, sp))) =~= tokens_view(toks@).push(
                        (t@, SpanModel { start: i as int, end: e as int }),
                    ));
                }
                toks.push((t, sp));
                i = e;
            },
            ScanStep::Fail(x, y) => {
                return Err(Span { start: x, end: y });
            },
        }
    }
    Ok(toks)
}

/// Length of the identifier word at the start of the input: the maximal run
/// of word characters, provided it is nonempty and contains a letter.
pub fn parse_id(input: &str) -> (r: Option<usize>)
    ensures
        match r {
            Some(n) => scan::id_end(input@, 0) == Some(n as int),
            None => scan::id_end(input@, 0) == None::<int>,
        },
{
    let s = crate::chars::chars_of(input);
    id_end_x(&s, 0)
}

/// Like `parse_id`, but also accepts a single leading underscore as a word.
pub fn parse_id_lodash(input: &str) -> (r: Option<usize>)
    ensures
        match r {
            Some(n) => scan::lodash_end(input@, 0) == Some(n as int),
            None => scan::lodash_end(input@, 0) == None::<int>,
        },
{
    let s = crate::chars::chars_of(input);
    lodash_end_x(&s, 0)
}

} // verus!
