//! Specification of the tokenizer.
//!
//! These functions define, over a sequence of characters, where every token
//! begins and ends, what its value is, and which spans are lexical errors.
//! They are the contract that the executable lexer is verified against.

use vstd::prelude::*;

verus! {

use crate::lexer::{Envop, Logop, Pfxop, Relop, SpanModel, TokenModel};

// ---------------------------------------------------------------------------
// Character classes
// ---------------------------------------------------------------------------

pub open spec fn is_space(c: char) -> bool {
    c == ' ' || c == '\t' || c == '\r' || c == '\n'
}

pub open spec fn is_alpha(c: char) -> bool {
    ('a' <= c && c <= 'z') || ('A' <= c && c <= 'Z')
}

pub open spec fn is_digit(c: char) -> bool {
    '0' <= c && c <= '9'
}

/// Characters a word may consist of: letters, digits, `_` and `-`.
pub open spec fn is_word_char(c: char) -> bool {
    is_alpha(c) || is_digit(c) || c == '_' || c == '-'
}

pub open spec fn is_hex_digit(c: char) -> bool {
    is_digit(c) || ('a' <= c && c <= 'f') || ('A' <= c && c <= 'F')
}

pub open spec fn digit_val(c: char) -> int {
    c as u32 - '0' as u32
}

pub open spec fn hex_val(c: char) -> int {
    if is_digit(c) {
        c as u32 - '0' as u32
    } else if 'a' <= c && c <= 'f' {
        c as u32 - 'a' as u32 + 10
    } else {
        c as u32 - 'A' as u32 + 10
    }
}

pub open spec fn true_chars() -> Seq<char> {
    seq!['t', 'r', 'u', 'e']
}

pub open spec fn false_chars() -> Seq<char> {
    seq!['f', 'a', 'l', 's', 'e']
}

// ---------------------------------------------------------------------------
// Simple runs
// ---------------------------------------------------------------------------

/// End of the run of plain spaces starting at `i`.
pub open spec fn space_end(s: Seq<char>, i: int) -> int
    decreases s.len() - i when 0 <= i <= s.len()
{
    if i < s.len() && s[i] == ' ' {
        space_end(s, i + 1)
    } else {
        i
    }
}

/// End of a line comment body: the position of the next newline, or the end
/// of the input.  The newline itself is not part of the comment.
pub open spec fn line_comment_end(s: Seq<char>, i: int) -> int
    decreases s.len() - i when 0 <= i <= s.len()
{
    if i < s.len() && s[i] != '\n' {
        line_comment_end(s, i + 1)
    } else {
        i
    }
}

/// End of the run of word characters starting at `i`.
pub open spec fn word_end(s: Seq<char>, i: int) -> int
    decreases s.len() - i when 0 <= i <= s.len()
{
    if i < s.len() && is_word_char(s[i]) {
        word_end(s, i + 1)
    } else {
        i
    }
}

/// End of the run of digits and underscores starting at `i`.
pub open spec fn digit_run_end(s: Seq<char>, i: int) -> int
    decreases s.len() - i when 0 <= i <= s.len()
{
    if i < s.len() && (is_digit(s[i]) || s[i] == '_') {
        digit_run_end(s, i + 1)
    } else {
        i
    }
}

pub open spec fn has_alpha(s: Seq<char>, i: int, j: int) -> bool {
    exists|k: int| i <= k < j && is_alpha(s[k])
}

// ---------------------------------------------------------------------------
// Block comments
// ---------------------------------------------------------------------------

/// Position just after the `*)` that closes a block comment whose body starts
/// at `i` with `depth` comments currently open; `None` when the input ends
/// before the comment closes.
pub open spec fn comment_end(s: Seq<char>, i: int, depth: int) -> Option<int>
    decreases s.len() - i when 0 <= i <= s.len()
{
    if i + 2 <= s.len() && s[i] == '(' && s[i + 1] == '*' {
        comment_end(s, i + 2, depth + 1)
    } else if i + 2 <= s.len() && s[i] == '*' && s[i + 1] == ')' {
        if depth == 1 {
            Some(i + 2)
        } else {
            comment_end(s, i + 2, depth - 1)
        }
    } else if i < s.len() {
        comment_end(s, i + 1, depth)
    } else {
        None
    }
}

// ---------------------------------------------------------------------------
// String literals
// ---------------------------------------------------------------------------

/// One escape sequence, starting at `j`, the position just after the
/// backslash.  Yields the character it denotes and the position after the
/// escape; `None` for a malformed escape.
///
/// A backslash before a newline (with an optional carriage return) is a line
/// continuation: it denotes a single `'\n'` and swallows the following run of
/// spaces.  A backslash before one of `"`, `'`, `\`, `n`, a carriage return,
/// a tab or a space denotes that character itself.  `\DDD` with three decimal
/// digits and `\xHH` with two hex digits denote the character with that code.
pub open spec fn scan_escape(s: Seq<char>, j: int) -> Option<(char, int)>
    decreases 0int when 0 <= j <= s.len()
{
    if j >= s.len() {
        None
    } else if s[j] == '\n' {
        Some(('\n', space_end(s, j + 1)))
    } else if s[j] == '\r' && j + 1 < s.len() && s[j + 1] == '\n' {
        Some(('\n', space_end(s, j + 2)))
    } else if s[j] == '"' || s[j] == '\'' || s[j] == '\\' || s[j] == 'n' || s[j] == '\r'
        || s[j] == '\t' || s[j] == ' ' {
        Some((s[j], j + 1))
    } else if is_digit(s[j]) {
        if j + 3 <= s.len() && is_digit(s[j + 1]) && is_digit(s[j + 2]) {
            Some((
                (((100 * digit_val(s[j]) + 10 * digit_val(s[j + 1]) + digit_val(s[j + 2]))
                    as u32) as char),
                j + 3,
            ))
        } else {
            None
        }
    } else if s[j] == 'x' {
        if j + 3 <= s.len() && is_hex_digit(s[j + 1]) && is_hex_digit(s[j + 2]) {
            Some(((((16 * hex_val(s[j + 1]) + hex_val(s[j + 2])) as u32) as char), j + 3))
        } else {
            None
        }
    } else {
        None
    }
}

/// How a string body scan ends.
pub enum StrScan {
    /// The closing delimiter was found: the decoded contents, and the
    /// position just after the delimiter.
    Done { text: Seq<char>, next: int },
    /// The input ended before the closing delimiter.
    Unterminated,
    /// A malformed escape; `at` is the position of its backslash.
    BadEscape { at: int },
}

/// Scan a string body starting at `i` (just after the opening delimiter),
/// with `acc` the contents decoded so far.  `triple` selects the `"""`
/// delimiter over `"`.  A carriage-return/newline pair in the body is
/// normalized to a single newline.
pub open spec fn scan_str(s: Seq<char>, i: int, triple: bool, acc: Seq<char>) -> StrScan
    decreases s.len() - i when 0 <= i <= s.len()
    via scan_str_dec
{
    if i >= s.len() {
        StrScan::Unterminated
    } else if triple && i + 3 <= s.len() && s[i] == '"' && s[i + 1] == '"' && s[i + 2] == '"' {
        StrScan::Done { text: acc, next: i + 3 }
    } else if !triple && s[i] == '"' {
        StrScan::Done { text: acc, next: i + 1 }
    } else if s[i] == '\\' {
        match scan_escape(s, i + 1) {
            Some((c, j)) => scan_str(s, j, triple, acc.push(c)),
            None => StrScan::BadEscape { at: i },
        }
    } else if s[i] == '\r' && i + 1 < s.len() && s[i + 1] == '\n' {
        scan_str(s, i + 2, triple, acc.push('\n'))
    } else {
        scan_str(s, i + 1, triple, acc.push(s[i]))
    }
}

#[via_fn]
proof fn scan_str_dec(s: Seq<char>, i: int, triple: bool, acc: Seq<char>) {
    if i < s.len() && !(triple && i + 3 <= s.len() && s[i] == '"' && s[i + 1] == '"'
        && s[i + 2] == '"') && !(!triple && s[i] == '"') && s[i] == '\\' {
        lemma_scan_escape(s, i + 1);
    }
}

// ---------------------------------------------------------------------------
// Identifiers
// ---------------------------------------------------------------------------

/// End of a plain identifier word at `i`: a maximal nonempty run of word
/// characters that contains at least one letter; `None` otherwise.
pub open spec fn id_end(s: Seq<char>, i: int) -> Option<int>
    decreases 0int when 0 <= i <= s.len()
{
    let w = word_end(s, i);
    if w > i && has_alpha(s, i, w) {
        Some(w)
    } else {
        None
    }
}

/// An identifier word, or the bare token `_`.
pub open spec fn lodash_end(s: Seq<char>, i: int) -> Option<int>
    decreases 0int when 0 <= i <= s.len()
{
    match id_end(s, i) {
        Some(j) => Some(j),
        None => if i < s.len() && s[i] == '_' {
            Some(i + 1)
        } else {
            None
        },
    }
}

/// Extend an identifier ending at `i` with `+`-joined words, as far as each
/// `+` is immediately followed by a word (or a bare `_`).
pub open spec fn plus_chain_end(s: Seq<char>, i: int) -> int
    decreases s.len() - i when 0 <= i <= s.len()
    via plus_chain_end_dec
{
    if i < s.len() && s[i] == '+' {
        match lodash_end(s, i + 1) {
            Some(j) => plus_chain_end(s, j),
            None => i,
        }
    } else {
        i
    }
}

#[via_fn]
proof fn plus_chain_end_dec(s: Seq<char>, i: int) {
    if i < s.len() && s[i] == '+' {
        lemma_lodash_end(s, i + 1);
    }
}

/// Extend an identifier ending at `i` with a `:`-prefixed qualifier word,
/// consumed only when a well-formed word immediately follows the `:`.
pub open spec fn qual_end(s: Seq<char>, i: int) -> int
    decreases 0int when 0 <= i <= s.len()
{
    if i < s.len() && s[i] == ':' {
        match id_end(s, i + 1) {
            Some(j) => j,
            None => i,
        }
    } else {
        i
    }
}

/// End of a full compound identifier at `i`: a first word (or bare `_`),
/// then `+`-joined words, then an optional `:` qualifier.  `None` when no
/// identifier starts at `i`.
pub open spec fn ident_end(s: Seq<char>, i: int) -> Option<int>
    decreases 0int when 0 <= i <= s.len()
{
    match lodash_end(s, i) {
        Some(first) => Some(qual_end(s, plus_chain_end(s, first))),
        None => None,
    }
}

// ---------------------------------------------------------------------------
// Integers
// ---------------------------------------------------------------------------

/// End of an integer-shaped token at `i`: an optional `-`, then a nonempty
/// run of digits and underscores.  Returns `i` when none starts here.
pub open spec fn int_end(s: Seq<char>, i: int) -> int
    decreases 0int when 0 <= i <= s.len()
{
    let a = if i < s.len() && s[i] == '-' {
        i + 1
    } else {
        i
    };
    let e = digit_run_end(s, a);
    if e > a {
        e
    } else {
        i
    }
}

/// Value of a sequence of decimal digit characters.
pub open spec fn dec_val(ds: Seq<char>) -> int
    decreases ds.len(),
{
    if ds.len() == 0 {
        0
    } else {
        10 * dec_val(ds.drop_last()) + digit_val(ds.last())
    }
}

/// `ds` with every underscore removed, order kept.
pub open spec fn strip_underscores(ds: Seq<char>) -> Seq<char>
    decreases ds.len(),
{
    if ds.len() == 0 {
        Seq::empty()
    } else {
        let rest = strip_underscores(ds.drop_last());
        if ds.last() == '_' {
            rest
        } else {
            rest.push(ds.last())
        }
    }
}

/// The digits of the integer-shaped token `s[i..e)`, underscores removed.
pub open spec fn int_digits(s: Seq<char>, i: int, e: int) -> Seq<char>
    decreases 0int when 0 <= i <= e <= s.len()
{
    let a = if s[i] == '-' {
        i + 1
    } else {
        i
    };
    strip_underscores(s.subrange(if a <= e { a } else { e }, e))
}

/// Value of the integer-shaped token `s[i..e)`: underscores are removed
/// before conversion.  `None` when no digit remains or the value does not
/// fit in a 64-bit signed integer.
pub open spec fn int_token_val(s: Seq<char>, i: int, e: int) -> Option<int>
    decreases 0int when 0 <= i < e <= s.len()
{
    let ds = int_digits(s, i, e);
    if ds.len() == 0 {
        None
    } else {
        let v: int = if s[i] == '-' {
            -dec_val(ds)
        } else {
            dec_val(ds)
        };
        if i64::MIN <= v <= i64::MAX {
            Some(v)
        } else {
            None
        }
    }
}

// ---------------------------------------------------------------------------
// The dispatcher
// ---------------------------------------------------------------------------

/// What the scanner finds at one position: material to skip, one token, or
/// a lexical error with its span.
pub enum Scan {
    Skip { next: int },
    Tok { t: TokenModel, end: int },
    Fail { at: int, upto: int },
}

/// The token, skip or error that starts at position `i`.
pub open spec fn next_token(s: Seq<char>, i: int) -> Scan
    decreases 0int when 0 <= i < s.len()
{
    let c = s[i];
    if is_space(c) {
        Scan::Skip { next: i + 1 }
    } else if c == '#' {
        Scan::Skip { next: line_comment_end(s, i + 1) }
    } else if c == '(' && i + 1 < s.len() && s[i + 1] == '*' {
        match comment_end(s, i + 2, 1) {
            Some(j) => Scan::Skip { next: j },
            None => Scan::Fail { at: i, upto: i + 2 },
        }
    } else if c == '(' {
        Scan::Tok { t: TokenModel::LPar, end: i + 1 }
    } else if c == ')' {
        Scan::Tok { t: TokenModel::RPar, end: i + 1 }
    } else if c == '{' {
        Scan::Tok { t: TokenModel::LBrace, end: i + 1 }
    } else if c == '}' {
        Scan::Tok { t: TokenModel::RBrace, end: i + 1 }
    } else if c == '[' {
        Scan::Tok { t: TokenModel::LBracket, end: i + 1 }
    } else if c == ']' {
        Scan::Tok { t: TokenModel::RBracket, end: i + 1 }
    } else if c == '"' {
        if i + 3 <= s.len() && s[i + 1] == '"' && s[i + 2] == '"' {
            match scan_str(s, i + 3, true, Seq::empty()) {
                StrScan::Done { text, next } => Scan::Tok { t: TokenModel::Str(text), end: next },
                StrScan::Unterminated => Scan::Fail { at: i, upto: i + 3 },
                StrScan::BadEscape { at } => Scan::Fail {
                    at,
                    upto: if at + 2 <= s.len() { at + 2 } else { s.len() as int },
                },
            }
        } else {
            match scan_str(s, i + 1, false, Seq::empty()) {
                StrScan::Done { text, next } => Scan::Tok { t: TokenModel::Str(text), end: next },
                StrScan::Unterminated => Scan::Fail { at: i, upto: i + 1 },
                StrScan::BadEscape { at } => Scan::Fail {
                    at,
                    upto: if at + 2 <= s.len() { at + 2 } else { s.len() as int },
                },
            }
        }
    } else if c == ':' {
        if i + 1 < s.len() && s[i + 1] == '=' {
            Scan::Tok { t: TokenModel::Envop(Envop::ColonEq), end: i + 2 }
        } else {
            Scan::Tok { t: TokenModel::Colon, end: i + 1 }
        }
    } else if c == '!' {
        if i + 1 < s.len() && s[i + 1] == '=' {
            Scan::Tok { t: TokenModel::Relop(Relop::Neq), end: i + 2 }
        } else {
            Scan::Tok { t: TokenModel::Pfxop(Pfxop::Not), end: i + 1 }
        }
    } else if c == '?' {
        Scan::Tok { t: TokenModel::Pfxop(Pfxop::Defined), end: i + 1 }
    } else if c == '>' {
        if i + 1 < s.len() && s[i + 1] == '=' {
            Scan::Tok { t: TokenModel::Relop(Relop::Geq), end: i + 2 }
        } else {
            Scan::Tok { t: TokenModel::Relop(Relop::Gt), end: i + 1 }
        }
    } else if c == '<' {
        if i + 1 < s.len() && s[i + 1] == '=' {
            Scan::Tok { t: TokenModel::Relop(Relop::Leq), end: i + 2 }
        } else {
            Scan::Tok { t: TokenModel::Relop(Relop::Lt), end: i + 1 }
        }
    } else if c == '~' {
        Scan::Tok { t: TokenModel::Relop(Relop::Geq), end: i + 1 }
    } else if c == '=' {
        if i + 1 < s.len() && s[i + 1] == '+' {
            if i + 2 < s.len() && s[i + 2] == '=' {
                Scan::Tok { t: TokenModel::Envop(Envop::EqPlusEq), end: i + 3 }
            } else {
                Scan::Tok { t: TokenModel::Envop(Envop::EqPlus), end: i + 2 }
            }
        } else if i + 1 < s.len() && s[i + 1] == ':' {
            Scan::Tok { t: TokenModel::Envop(Envop::EqColon), end: i + 2 }
        } else {
            Scan::Tok { t: TokenModel::Relop(Relop::Eq), end: i + 1 }
        }
    } else if c == '+' {
        if i + 1 < s.len() && s[i + 1] == '=' {
            Scan::Tok { t: TokenModel::Envop(Envop::PlusEq), end: i + 2 }
        } else {
            Scan::Fail { at: i, upto: i + 1 }
        }
    } else if c == '&' {
        Scan::Tok { t: TokenModel::Logop(Logop::And), end: i + 1 }
    } else if c == '|' {
        Scan::Tok { t: TokenModel::Logop(Logop::Or), end: i + 1 }
    } else if is_word_char(c) {
        let id_len: int = match ident_end(s, i) {
            Some(j) => j - i,
            None => 0,
        };
        let int_len: int = int_end(s, i) - i;
        if id_len == 0 && int_len == 0 {
            Scan::Fail { at: i, upto: i + 1 }
        } else if id_len >= int_len {
            let j = i + id_len;
            let text = s.subrange(i, j);
            if text == true_chars() {
                Scan::Tok { t: TokenModel::Bool(true), end: j }
            } else if text == false_chars() {
                Scan::Tok { t: TokenModel::Bool(false), end: j }
            } else {
                Scan::Tok { t: TokenModel::Ident(text), end: j }
            }
        } else {
            let e = int_end(s, i);
            match int_token_val(s, i, e) {
                Some(v) => Scan::Tok { t: TokenModel::Int(v), end: e },
                None => Scan::Fail { at: i, upto: e },
            }
        }
    } else {
        Scan::Fail { at: i, upto: i + 1 }
    }
}

/// The tokenization of `s` from position `i` on, with `acc` the tokens
/// already emitted: the full token list, or the span of the first error.
pub open spec fn lex_at(
    s: Seq<char>,
    i: int,
    acc: Seq<(TokenModel, SpanModel)>,
) -> Result<Seq<(TokenModel, SpanModel)>, SpanModel>
    decreases s.len() - i when 0 <= i <= s.len()
    via lex_at_dec
{
    if i >= s.len() {
        Ok(acc)
    } else {
        match next_token(s, i) {
            Scan::Skip { next } => lex_at(s, next, acc),
            Scan::Tok { t, end } => lex_at(s, end, acc.push((t, SpanModel { start: i, end }))),
            Scan::Fail { at, upto } => Err(SpanModel { start: at, end: upto }),
        }
    }
}

#[via_fn]
proof fn lex_at_dec(s: Seq<char>, i: int, acc: Seq<(TokenModel, SpanModel)>) {
    if i < s.len() {
        lemma_next_token(s, i);
    }
}

/// The tokenization of a whole character sequence.
pub open spec fn lex_spec(s: Seq<char>) -> Result<Seq<(TokenModel, SpanModel)>, SpanModel> {
    lex_at(s, 0, Seq::empty())
}

// ---------------------------------------------------------------------------
// Bounds
// ---------------------------------------------------------------------------

pub proof fn lemma_space_end(s: Seq<char>, i: int)
    requires
        0 <= i <= s.len(),
    ensures
        i <= space_end(s, i) <= s.len(),
    decreases s.len() - i,
{
    if i < s.len() && s[i] == ' ' {
        lemma_space_end(s, i + 1);
    }
}

pub proof fn lemma_line_comment_end(s: Seq<char>, i: int)
    requires
        0 <= i <= s.len(),
    ensures
        i <= line_comment_end(s, i) <= s.len(),
    decreases s.len() - i,
{
    if i < s.len() && s[i] != '\n' {
        lemma_line_comment_end(s, i + 1);
    }
}

pub proof fn lemma_word_end(s: Seq<char>, i: int)
    requires
        0 <= i <= s.len(),
    ensures
        i <= word_end(s, i) <= s.len(),
    decreases s.len() - i,
{
    if i < s.len() && is_word_char(s[i]) {
        lemma_word_end(s, i + 1);
    }
}

pub proof fn lemma_digit_run_end(s: Seq<char>, i: int)
    requires
        0 <= i <= s.len(),
    ensures
        i <= digit_run_end(s, i) <= s.len(),
    decreases s.len() - i,
{
    if i < s.len() && (is_digit(s[i]) || s[i] == '_') {
        lemma_digit_run_end(s, i + 1);
    }
}

pub proof fn lemma_comment_end(s: Seq<char>, i: int, depth: int)
    requires
        0 <= i <= s.len(),
    ensures
        match comment_end(s, i, depth) {
            Some(j) => i < j <= s.len(),
            None => true,
        },
    decreases s.len() - i,
{
    if i + 2 <= s.len() && s[i] == '(' && s[i + 1] == '*' {
        lemma_comment_end(s, i + 2, depth + 1);
    } else if i + 2 <= s.len() && s[i] == '*' && s[i + 1] == ')' {
        if depth != 1 {
            lemma_comment_end(s, i + 2, depth - 1);
        }
    } else if i < s.len() {
        lemma_comment_end(s, i + 1, depth);
    }
}

pub proof fn lemma_scan_escape(s: Seq<char>, j: int)
    requires
        0 <= j <= s.len(),
    ensures
        match scan_escape(s, j) {
            Some((c, j2)) => j < j2 <= s.len(),
            None => true,
        },
{
    if j < s.len() {
        if s[j] == '\n' {
            lemma_space_end(s, j + 1);
        } else if s[j] == '\r' && j + 1 < s.len() && s[j + 1] == '\n' {
            lemma_space_end(s, j + 2);
        }
    }
}

pub proof fn lemma_scan_str(s: Seq<char>, i: int, triple: bool, acc: Seq<char>)
    requires
        0 <= i <= s.len(),
    ensures
        match scan_str(s, i, triple, acc) {
            StrScan::Done { text, next } => i < next <= s.len(),
            StrScan::Unterminated => true,
            StrScan::BadEscape { at } => i <= at < s.len(),
        },
    decreases s.len() - i,
{
    if i < s.len() {
        if triple && i + 3 <= s.len() && s[i] == '"' && s[i + 1] == '"' && s[i + 2] == '"' {
        } else if !triple && s[i] == '"' {
        } else if s[i] == '\\' {
            lemma_scan_escape(s, i + 1);
            match scan_escape(s, i + 1) {
                Some((c, j)) => lemma_scan_str(s, j, triple, acc.push(c)),
                None => {},
            }
        } else if s[i] == '\r' && i + 1 < s.len() && s[i + 1] == '\n' {
            lemma_scan_str(s, i + 2, triple, acc.push('\n'));
        } else {
            lemma_scan_str(s, i + 1, triple, acc.push(s[i]));
        }
    }
}

pub proof fn lemma_lodash_end(s: Seq<char>, i: int)
    requires
        0 <= i <= s.len(),
    ensures
        match lodash_end(s, i) {
            Some(j) => i < j <= s.len(),
            None => true,
        },
{
    lemma_word_end(s, i);
}

pub proof fn lemma_plus_chain_end(s: Seq<char>, i: int)
    requires
        0 <= i <= s.len(),
    ensures
        i <= plus_chain_end(s, i) <= s.len(),
    decreases s.len() - i,
{
    if i < s.len() && s[i] == '+' {
        lemma_lodash_end(s, i + 1);
        match lodash_end(s, i + 1) {
            Some(j) => lemma_plus_chain_end(s, j),
            None => {},
        }
    }
}

pub proof fn lemma_qual_end(s: Seq<char>, i: int)
    requires
        0 <= i <= s.len(),
    ensures
        i <= qual_end(s, i) <= s.len(),
{
    if i < s.len() && s[i] == ':' {
        lemma_lodash_end(s, i + 1);
    }
}

pub proof fn lemma_ident_end(s: Seq<char>, i: int)
    requires
        0 <= i <= s.len(),
    ensures
        match ident_end(s, i) {
            Some(j) => i < j <= s.len(),
            None => true,
        },
{
    lemma_lodash_end(s, i);
    match lodash_end(s, i) {
        Some(first) => {
            lemma_plus_chain_end(s, first);
            lemma_qual_end(s, plus_chain_end(s, first));
        },
        None => {},
    }
}

pub proof fn lemma_int_end(s: Seq<char>, i: int)
    requires
        0 <= i <= s.len(),
    ensures
        i <= int_end(s, i) <= s.len(),
{
    if i < s.len() && s[i] == '-' {
        lemma_digit_run_end(s, i + 1);
    } else {
        lemma_digit_run_end(s, i);
    }
}

/// Well-formed token spans: each is a nonempty half-open range within the
/// first `hi` positions, and successive tokens lie strictly left to right
/// without overlapping.
pub open spec fn spans_fit(ts: Seq<(TokenModel, SpanModel)>, hi: int) -> bool {
    &&& forall|k: int|
        0 <= k < ts.len() ==> 0 <= (#[trigger] ts[k]).1.start && ts[k].1.start < ts[k].1.end
            && ts[k].1.end <= hi
    &&& forall|k: int| 1 <= k < ts.len() ==> ts[k - 1].1.end <= (#[trigger] ts[k]).1.start
}

proof fn lemma_lex_at_spans(s: Seq<char>, i: int, acc: Seq<(TokenModel, SpanModel)>)
    requires
        0 <= i <= s.len(),
        spans_fit(acc, i),
    ensures
        match lex_at(s, i, acc) {
            Ok(ts) => spans_fit(ts, s.len() as int),
            Err(sp) => 0 <= sp.start < sp.end <= s.len(),
        },
    decreases s.len() - i,
{
    if i >= s.len() {
        assert(spans_fit(acc, s.len() as int));
    } else {
        lemma_next_token(s, i);
        match next_token(s, i) {
            Scan::Skip { next } => {
                assert(spans_fit(acc, next));
                lemma_lex_at_spans(s, next, acc);
            },
            Scan::Tok { t, end } => {
                let acc2 = acc.push((t, SpanModel { start: i, end }));
                assert(spans_fit(acc2, end)) by {
                    assert(forall|k: int|
                        0 <= k < acc.len() ==> (#[trigger] acc2[k]) == acc[k]);
                    assert(acc2[acc.len() as int].1 == SpanModel { start: i, end });
                };
                lemma_lex_at_spans(s, end, acc2);
            },
            Scan::Fail { at, upto } => {},
        }
    }
}

/// The law of spans: when tokenization succeeds, every token's span is a
/// nonempty half-open range of positions within the source and the tokens
/// appear strictly left to right without overlap; when it fails, the error
/// span is itself a nonempty range within the source.
pub proof fn lemma_lex_spans(s: Seq<char>)
    ensures
        match lex_spec(s) {
            Ok(ts) => spans_fit(ts, s.len() as int),
            Err(sp) => 0 <= sp.start < sp.end <= s.len(),
        },
{
    lemma_lex_at_spans(s, 0, Seq::empty());
}

pub open spec fn digit_or_underscore(c: char) -> bool {
    is_digit(c) || c == '_'
}

pub open spec fn all_digit_or_underscore(ds: Seq<char>) -> bool {
    forall|k: int| 0 <= k < ds.len() ==> digit_or_underscore(#[trigger] ds[k])
}

pub open spec fn all_digits(ds: Seq<char>) -> bool {
    forall|k: int| 0 <= k < ds.len() ==> is_digit(#[trigger] ds[k])
}

/// Every character of a digit run is a digit or an underscore.
pub proof fn lemma_digit_run_chars(s: Seq<char>, i: int)
    requires
        0 <= i <= s.len(),
    ensures
        forall|k: int| i <= k < digit_run_end(s, i) ==> digit_or_underscore(#[trigger] s[k]),
    decreases s.len() - i,
{
    if i < s.len() && (is_digit(s[i]) || s[i] == '_') {
        lemma_digit_run_chars(s, i + 1);
        lemma_digit_run_end(s, i + 1);
    }
}

pub proof fn lemma_strip_digits(ds: Seq<char>)
    requires
        all_digit_or_underscore(ds),
    ensures
        all_digits(strip_underscores(ds)),
    decreases ds.len(),
{
    if ds.len() > 0 {
        assert(all_digit_or_underscore(ds.drop_last()));
        lemma_strip_digits(ds.drop_last());
    }
}

pub proof fn lemma_dec_val_nonneg(ds: Seq<char>)
    requires
        all_digits(ds),
    ensures
        dec_val(ds) >= 0,
    decreases ds.len(),
{
    if ds.len() > 0 {
        assert(all_digits(ds.drop_last()));
        lemma_dec_val_nonneg(ds.drop_last());
    }
}

pub proof fn lemma_strip_append(d1: Seq<char>, d2: Seq<char>)
    ensures
        strip_underscores(d1 + d2) == strip_underscores(d1) + strip_underscores(d2),
    decreases d2.len(),
{
    if d2.len() == 0 {
        assert(d1 + d2 =~= d1);
        assert(strip_underscores(d1) + strip_underscores(d2) =~= strip_underscores(d1));
    } else {
        assert((d1 + d2).drop_last() =~= d1 + d2.drop_last());
        assert((d1 + d2).last() == d2.last());
        lemma_strip_append(d1, d2.drop_last());
        if d2.last() == '_' {
        } else {
            assert(strip_underscores(d1) + strip_underscores(d2) =~= (strip_underscores(d1)
                + strip_underscores(d2.drop_last())).push(d2.last()));
        }
    }
}

pub proof fn lemma_dec_val_append_ge(d1: Seq<char>, d2: Seq<char>)
    requires
        all_digits(d1),
        all_digits(d2),
    ensures
        dec_val(d1 + d2) >= dec_val(d1),
    decreases d2.len(),
{
    if d2.len() == 0 {
        assert(d1 + d2 =~= d1);
    } else {
        assert((d1 + d2).drop_last() =~= d1 + d2.drop_last());
        assert((d1 + d2).last() == d2.last());
        assert(all_digits(d2.drop_last()));
        lemma_dec_val_append_ge(d1, d2.drop_last());
        lemma_dec_val_nonneg(d1);
        assert(all_digits(d1 + d2.drop_last())) by {
            assert(forall|k: int| 0 <= k < d1.len() ==> (d1 + d2.drop_last())[k] == d1[k]);
        }
        lemma_dec_val_nonneg(d1 + d2.drop_last());
        assert(is_digit(d2.last()));
    }
}

/// The value of the stripped digits of `s[a..k)` never exceeds that of
/// `s[a..e)`, for `k <= e`: appending digits only grows the value.
pub proof fn lemma_dec_val_prefix(s: Seq<char>, a: int, k: int, e: int)
    requires
        0 <= a <= k <= e <= s.len(),
        forall|m: int| a <= m < e ==> digit_or_underscore(#[trigger] s[m]),
    ensures
        dec_val(strip_underscores(s.subrange(a, k))) <= dec_val(strip_underscores(s.subrange(a, e))),
{
    let p = s.subrange(a, k);
    let q = s.subrange(k, e);
    assert(s.subrange(a, e) =~= p + q);
    lemma_strip_append(p, q);
    assert(all_digit_or_underscore(p));
    assert(all_digit_or_underscore(q));
    lemma_strip_digits(p);
    lemma_strip_digits(q);
    lemma_dec_val_append_ge(strip_underscores(p), strip_underscores(q));
}

/// One step of underscore stripping.
pub proof fn lemma_strip_push(t: Seq<char>, c: char)
    ensures
        strip_underscores(t.push(c)) == if c == '_' {
            strip_underscores(t)
        } else {
            strip_underscores(t).push(c)
        },
{
    assert(t.push(c).drop_last() =~= t);
    assert(t.push(c).last() == c);
}

/// One step of decimal evaluation.
pub proof fn lemma_dec_val_push(t: Seq<char>, c: char)
    ensures
        dec_val(t.push(c)) == 10 * dec_val(t) + digit_val(c),
{
    assert(t.push(c).drop_last() =~= t);
    assert(t.push(c).last() == c);
}

pub proof fn lemma_next_token(s: Seq<char>, i: int)
    requires
        0 <= i < s.len(),
    ensures
        match next_token(s, i) {
            Scan::Skip { next } => i < next <= s.len(),
            Scan::Tok { t, end } => i < end <= s.len(),
            Scan::Fail { at, upto } => 0 <= at < upto <= s.len(),
        },
{
    let c = s[i];
    if is_space(c) {
    } else if c == '#' {
        lemma_line_comment_end(s, i + 1);
    } else if c == '(' && i + 1 < s.len() && s[i + 1] == '*' {
        lemma_comment_end(s, i + 2, 1);
    } else if c == '"' {
        if i + 3 <= s.len() && s[i + 1] == '"' && s[i + 2] == '"' {
            lemma_scan_str(s, i + 3, true, Seq::empty());
        } else {
            lemma_scan_str(s, i + 1, false, Seq::empty());
        }
    } else if is_word_char(c) {
        lemma_ident_end(s, i);
        lemma_int_end(s, i);
    }
}

} // verus!
