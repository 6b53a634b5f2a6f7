//! The JSON encoding of a parsed file.
//!
//! The encoding is a pure function of the tree, defined by `json_of_file`:
//! an object per items mapping in mapping order; native booleans, numbers
//! and strings for the atoms; `{"__id__": name}` for a bare identifier so it
//! stays distinguishable from a string literal; arrays for both lists and
//! groups (that distinction is deliberately not preserved);
//! `{"__value__": v, "__options__": [...]}` for an option-suffixed value;
//! and `{op_name: ...}` for operators, with the operand pair as an array.
//! A section's optional name is appended to its object under `"__name__"`.

use vstd::prelude::*;

verus! {

use crate::lexer::{Envop, Logop, Pfxop, Relop};
use crate::parser::{
    items_view, lemma_items_view_index, lemma_values_view_index, value_view, values_view, Item,
    ItemModel, OpamFile, Value, ValueModel,
};

// ---------------------------------------------------------------------------
// The encoding, as specification functions
// ---------------------------------------------------------------------------

pub open spec fn hex_digit_char(d: int) -> char {
    if d < 10 {
        ((48 + d) as u32) as char
    } else {
        ((87 + d) as u32) as char
    }
}

pub open spec fn digit_char(d: int) -> char {
    ((48 + d) as u32) as char
}

/// The JSON escape of one character: `\"` and `\\` for quote and backslash,
/// the short escapes for backspace, tab, newline, form feed and carriage
/// return, `\u00xx` for the remaining control characters, and the character
/// itself otherwise.
pub open spec fn esc_char(c: char) -> Seq<char> {
    if c == '"' {
        ("\\\"")@
    } else if c == '\\' {
        ("\\\\")@
    } else if c as u32 == 8 {
        ("\\b")@
    } else if c as u32 == 9 {
        ("\\t")@
    } else if c as u32 == 10 {
        ("\\n")@
    } else if c as u32 == 12 {
        ("\\f")@
    } else if c as u32 == 13 {
        ("\\r")@
    } else if (c as u32) < 32 {
        let hi = ((c as u32) / 16) as int;
        let lo = ((c as u32) % 16) as int;
        ("\\u00")@ + seq![hex_digit_char(hi), hex_digit_char(lo)]
    } else {
        seq![c]
    }
}

pub open spec fn json_escaped(s: Seq<char>) -> Seq<char>
    decreases s.len(),
{
    if s.len() == 0 {
        Seq::empty()
    } else {
        json_escaped(s.drop_last()) + esc_char(s.last())
    }
}

/// A JSON string literal: the escaped text between quotes.
pub open spec fn json_str(s: Seq<char>) -> Seq<char> {
    ("\"")@ + json_escaped(s) + ("\"")@
}

/// The decimal digits of a nonnegative integer.
pub open spec fn nat_str(n: int) -> Seq<char>
    decreases n when n >= 0
{
    if n < 10 {
        seq![digit_char(n)]
    } else {
        nat_str(n / 10) + seq![digit_char(n % 10)]
    }
}

/// A JSON number: the decimal digits, with a leading minus when negative.
pub open spec fn int_str(i: int) -> Seq<char> {
    if i < 0 {
        ("-")@ + nat_str(-i)
    } else {
        nat_str(i)
    }
}

pub open spec fn relop_name(op: Relop) -> Seq<char> {
    match op {
        Relop::Eq => ("eq")@,
        Relop::Neq => ("neq")@,
        Relop::Geq => ("geq")@,
        Relop::Gt => ("gt")@,
        Relop::Leq => ("leq")@,
        Relop::Lt => ("lt")@,
    }
}

pub open spec fn logop_name(op: Logop) -> Seq<char> {
    match op {
        Logop::And => ("and")@,
        Logop::Or => ("or")@,
    }
}

pub open spec fn pfxop_name(op: Pfxop) -> Seq<char> {
    match op {
        Pfxop::Not => ("not")@,
        Pfxop::Defined => ("defined")@,
    }
}

pub open spec fn envop_name(op: Envop) -> Seq<char> {
    match op {
        Envop::Eq => ("eq")@,
        Envop::PlusEq => ("plus_eq")@,
        Envop::EqPlus => ("eq_plus")@,
        Envop::EqPlusEq => ("eq_plus_eq")@,
        Envop::ColonEq => ("colon_eq")@,
        Envop::EqColon => ("eq_colon")@,
    }
}

/// An object with one key: `{"name":body}`.
pub open spec fn key_obj(name: Seq<char>, body: Seq<char>) -> Seq<char> {
    ("{\"")@ + name + ("\":")@ + body + ("}")@
}

/// A two-element array: `[x,y]`.
pub open spec fn arr2(x: Seq<char>, y: Seq<char>) -> Seq<char> {
    ("[")@ + x + (",")@ + y + ("]")@
}

/// The JSON text of one value.
pub open spec fn json_of_value(v: ValueModel) -> Seq<char>
    decreases v, 0int,
{
    match v {
        ValueModel::Bool(b) => if b {
            ("true")@
        } else {
            ("false")@
        },
        ValueModel::Int(i) => int_str(i),
        ValueModel::Str(s) => json_str(s),
        ValueModel::Ident(s) => key_obj(("__id__")@, json_str(s)),
        ValueModel::Relop(op, a, b) => key_obj(
            relop_name(op),
            arr2(json_of_value(*a), json_of_value(*b)),
        ),
        ValueModel::PrefixRelop(op, a) => key_obj(relop_name(op), json_of_value(*a)),
        ValueModel::Logop(op, a, b) => key_obj(
            logop_name(op),
            arr2(json_of_value(*a), json_of_value(*b)),
        ),
        ValueModel::Pfxop(op, a) => key_obj(pfxop_name(op), json_of_value(*a)),
        ValueModel::List(l) => ("[")@ + json_of_values(l, 0) + ("]")@,
        ValueModel::Group(l) => ("[")@ + json_of_values(l, 0) + ("]")@,
        ValueModel::Option(v0, opts) => ("{\"__value__\":")@ + json_of_value(*v0)
            + (",\"__options__\":[")@ + json_of_values(opts, 0) + ("]}")@,
        ValueModel::EnvBinding(a, op, b) => key_obj(
            envop_name(op),
            arr2(json_of_value(*a), json_of_value(*b)),
        ),
    }
}

/// The JSON texts of the values `l[k..]`, joined by commas.
pub open spec fn json_of_values(l: Seq<ValueModel>, k: int) -> Seq<char>
    decreases l, l.len() - k when 0 <= k <= l.len()
{
    if k >= l.len() {
        Seq::empty()
    } else if k == l.len() - 1 {
        json_of_value(l[k])
    } else {
        json_of_value(l[k]) + (",")@ + json_of_values(l, k + 1)
    }
}

/// The JSON text of one item: a variable's value, or a section's object
/// with its optional `"__name__"` appended after its own items.
pub open spec fn json_of_item(it: ItemModel) -> Seq<char>
    decreases it, 0int,
{
    match it {
        ItemModel::Variable(v) => json_of_value(v),
        ItemModel::Section { name, items } => ("{")@ + json_of_entries(items, 0) + (match name {
            Some(n) => (if items.len() > 0 {
                (",")@
            } else {
                Seq::<char>::empty()
            }) + ("\"__name__\":")@ + json_str(n),
            None => Seq::<char>::empty(),
        }) + ("}")@,
    }
}

/// The JSON texts of the entries `es[k..]`, each `"key":item`, joined by
/// commas, in mapping order.
pub open spec fn json_of_entries(es: Seq<(Seq<char>, ItemModel)>, k: int) -> Seq<char>
    decreases es, es.len() - k when 0 <= k <= es.len()
{
    if k >= es.len() {
        Seq::empty()
    } else if k == es.len() - 1 {
        json_str(es[k].0) + (":")@ + json_of_item(es[k].1)
    } else {
        json_str(es[k].0) + (":")@ + json_of_item(es[k].1) + (",")@ + json_of_entries(es, k + 1)
    }
}

/// The JSON text of a whole file: the object of its items.
pub open spec fn json_of_file(es: Seq<(Seq<char>, ItemModel)>) -> Seq<char> {
    ("{")@ + json_of_entries(es, 0) + ("}")@
}

// ---------------------------------------------------------------------------
// The one loss of the encoding
// ---------------------------------------------------------------------------

/// Replace every group by the list of the same elements, throughout a
/// value: the only information the JSON encoding forgets.
pub open spec fn collapse_value(v: ValueModel) -> ValueModel
    decreases v, 0int,
{
    match v {
        ValueModel::Bool(b) => ValueModel::Bool(b),
        ValueModel::Int(i) => ValueModel::Int(i),
        ValueModel::Str(s) => ValueModel::Str(s),
        ValueModel::Ident(s) => ValueModel::Ident(s),
        ValueModel::Relop(op, a, b) => ValueModel::Relop(
            op,
            Box::new(collapse_value(*a)),
            Box::new(collapse_value(*b)),
        ),
        ValueModel::PrefixRelop(op, a) => ValueModel::PrefixRelop(op, Box::new(collapse_value(*a))),
        ValueModel::Logop(op, a, b) => ValueModel::Logop(
            op,
            Box::new(collapse_value(*a)),
            Box::new(collapse_value(*b)),
        ),
        ValueModel::Pfxop(op, a) => ValueModel::Pfxop(op, Box::new(collapse_value(*a))),
        ValueModel::List(l) => ValueModel::List(collapse_values(l, 0)),
        ValueModel::Group(l) => ValueModel::List(collapse_values(l, 0)),
        ValueModel::Option(v0, opts) => ValueModel::Option(
            Box::new(collapse_value(*v0)),
            collapse_values(opts, 0),
        ),
        ValueModel::EnvBinding(a, op, b) => ValueModel::EnvBinding(
            Box::new(collapse_value(*a)),
            op,
            Box::new(collapse_value(*b)),
        ),
    }
}

pub open spec fn collapse_values(l: Seq<ValueModel>, k: int) -> Seq<ValueModel>
    decreases l, l.len() - k when 0 <= k <= l.len()
{
    if k >= l.len() {
        Seq::empty()
    } else {
        seq![collapse_value(l[k])] + collapse_values(l, k + 1)
    }
}

pub open spec fn collapse_item(it: ItemModel) -> ItemModel
    decreases it, 0int,
{
    match it {
        ItemModel::Variable(v) => ItemModel::Variable(collapse_value(v)),
        ItemModel::Section { name, items } => ItemModel::Section {
            name,
            items: collapse_entries(items, 0),
        },
    }
}

pub open spec fn collapse_entries(
    es: Seq<(Seq<char>, ItemModel)>,
    k: int,
) -> Seq<(Seq<char>, ItemModel)>
    decreases es, es.len() - k when 0 <= k <= es.len()
{
    if k >= es.len() {
        Seq::empty()
    } else {
        seq![(es[k].0, collapse_item(es[k].1))] + collapse_entries(es, k + 1)
    }
}

proof fn lemma_collapse_values_index(l: Seq<ValueModel>, k: int)
    requires
        0 <= k <= l.len(),
    ensures
        collapse_values(l, k).len() == l.len() - k,
        forall|m: int|
            0 <= m < l.len() - k ==> (#[trigger] collapse_values(l, k)[m]) == collapse_value(
                l[k + m],
            ),
    decreases l.len() - k,
{
    if k < l.len() {
        lemma_collapse_values_index(l, k + 1);
    }
}

proof fn lemma_collapse_entries_index(es: Seq<(Seq<char>, ItemModel)>, k: int)
    requires
        0 <= k <= es.len(),
    ensures
        collapse_entries(es, k).len() == es.len() - k,
        forall|m: int|
            0 <= m < es.len() - k ==> (#[trigger] collapse_entries(es, k)[m]) == (
                es[k + m].0,
                collapse_item(es[k + m].1),
            ),
    decreases es.len() - k,
{
    if k < es.len() {
        lemma_collapse_entries_index(es, k + 1);
    }
}

/// Collapsing groups into lists does not change a value's JSON text.
pub proof fn lemma_collapse_keeps_value_text(v: ValueModel)
    ensures
        json_of_value(collapse_value(v)) == json_of_value(v),
    decreases v, 0int,
{
    match v {
        ValueModel::Relop(op, a, b) => {
            lemma_collapse_keeps_value_text(*a);
            lemma_collapse_keeps_value_text(*b);
        },
        ValueModel::PrefixRelop(op, a) => {
            lemma_collapse_keeps_value_text(*a);
        },
        ValueModel::Logop(op, a, b) => {
            lemma_collapse_keeps_value_text(*a);
            lemma_collapse_keeps_value_text(*b);
        },
        ValueModel::Pfxop(op, a) => {
            lemma_collapse_keeps_value_text(*a);
        },
        ValueModel::List(l) => {
            lemma_collapse_keeps_values_text(l, 0);
        },
        ValueModel::Group(l) => {
            lemma_collapse_keeps_values_text(l, 0);
        },
        ValueModel::Option(v0, opts) => {
            lemma_collapse_keeps_value_text(*v0);
            lemma_collapse_keeps_values_text(opts, 0);
        },
        ValueModel::EnvBinding(a, op, b) => {
            lemma_collapse_keeps_value_text(*a);
            lemma_collapse_keeps_value_text(*b);
        },
        _ => {},
    }
}

proof fn lemma_collapse_keeps_values_text(l: Seq<ValueModel>, k: int)
    requires
        0 <= k <= l.len(),
    ensures
        json_of_values(collapse_values(l, 0), k) == json_of_values(l, k),
    decreases l, l.len() - k,
{
    lemma_collapse_values_index(l, 0);
    if k < l.len() {
        lemma_collapse_keeps_value_text(l[k]);
        lemma_collapse_keeps_values_text(l, k + 1);
    }
}

/// Collapsing groups into lists does not change an item's JSON text.
pub proof fn lemma_collapse_keeps_item_text(it: ItemModel)
    ensures
        json_of_item(collapse_item(it)) == json_of_item(it),
    decreases it, 0int,
{
    match it {
        ItemModel::Variable(v) => {
            lemma_collapse_keeps_value_text(v);
        },
        ItemModel::Section { name, items } => {
            lemma_collapse_entries_index(items, 0);
            lemma_collapse_keeps_entries_text(items, 0);
        },
    }
}

proof fn lemma_collapse_keeps_entries_text(es: Seq<(Seq<char>, ItemModel)>, k: int)
    requires
        0 <= k <= es.len(),
    ensures
        json_of_entries(collapse_entries(es, 0), k) == json_of_entries(es, k),
    decreases es, es.len() - k,
{
    lemma_collapse_entries_index(es, 0);
    if k < es.len() {
        lemma_collapse_keeps_item_text(es[k].1);
        lemma_collapse_keeps_entries_text(es, k + 1);
    }
}

/// The list/group distinction is the JSON encoding's only loss, stated as
/// the lossy direction: a file and its collapse have the same JSON text, so
/// a consumer that re-parses the text can reconstruct the tree at most up
/// to that collapse.
pub proof fn lemma_collapse_keeps_file_text(es: Seq<(Seq<char>, ItemModel)>)
    ensures
        json_of_file(collapse_entries(es, 0)) == json_of_file(es),
{
    lemma_collapse_keeps_entries_text(es, 0);
}

/// A bare identifier is always encoded as the object `{"__id__":name}`,
/// and that text is never the bare JSON string of the name: the two begin
/// with different characters.
pub proof fn lemma_ident_encoding_distinct(name: Seq<char>)
    ensures
        json_of_value(ValueModel::Ident(name)) == key_obj(("__id__")@, json_str(name)),
        json_of_value(ValueModel::Ident(name)) != json_str(name),
{
    reveal_strlit("{\"");
    reveal_strlit("\"");
    assert(json_of_value(ValueModel::Ident(name))[0] == '{');
    assert(json_str(name)[0] == '"');
}

// ---------------------------------------------------------------------------
// The executable printer, verified against the encoding above
// ---------------------------------------------------------------------------

fn push_lit(out: &mut String, lit: &str)
    ensures
        final(out)@ == old(out)@ + lit@,
{
    out.append(lit);
}

fn hex_digit_x(d: u32) -> (r: char)
    requires
        d < 16,
    ensures
        r == hex_digit_char(d as int),
{
    if d < 10 {
        crate::chars::char_from_code(48 + d)
    } else {
        crate::chars::char_from_code(87 + d)
    }
}

fn esc_push(out: &mut String, c: char)
    ensures
        final(out)@ == old(out)@ + esc_char(c),
{
    if c == '"' {
        push_lit(out, "\\\"");
    } else if c == '\\' {
        push_lit(out, "\\\\");
    } else {
        let code = c as u32;
        if code == 8 {
            push_lit(out, "\\b");
        } else if code == 9 {
            push_lit(out, "\\t");
        } else if code == 10 {
            push_lit(out, "\\n");
        } else if code == 12 {
            push_lit(out, "\\f");
        } else if code == 13 {
            push_lit(out, "\\r");
        } else if code < 32 {
            push_lit(out, "\\u00");
            crate::chars::push_char(out, hex_digit_x(code / 16));
            crate::chars::push_char(out, hex_digit_x(code % 16));
            proof {
                assert(out@ =~= old(out)@ + esc_char(c));
            }
        } else {
            crate::chars::push_char(out, c);
            proof {
                assert(out@ =~= old(out)@ + esc_char(c));
            }
        }
    }
}

fn push_escaped(out: &mut String, s: &String)
    ensures
        final(out)@ == old(out)@ + json_escaped(s@),
{
    let n = s.as_str().unicode_len();
    let mut i: usize = 0;
    proof {
        assert(s@.subrange(0, 0) =~= Seq::<char>::empty());
        assert(out@ =~= old(out)@ + json_escaped(s@.subrange(0, 0)));
    }
    while i < n
        invariant
            n == s@.len(),
            i <= n,
            out@ == old(out)@ + json_escaped(s@.subrange(0, i as int)),
        decreases n - i,
    {
        let c = s.as_str().get_char(i);
        esc_push(out, c);
        i = i + 1;
        proof {
            assert(s@.subrange(0, i as int).drop_last() =~= s@.subrange(0, i as int - 1));
            assert(s@.subrange(0, i as int).last() == s@[i as int - 1]);
            assert(out@ =~= old(out)@ + json_escaped(s@.subrange(0, i as int)));
        }
    }
    proof {
        assert(s@.subrange(0, n as int) =~= s@);
    }
}

fn push_json_str(out: &mut String, s: &String)
    ensures
        final(out)@ == old(out)@ + json_str(s@),
{
    push_lit(out, "\"");
    push_escaped(out, s);
    push_lit(out, "\"");
    proof {
        assert(out@ =~= old(out)@ + json_str(s@));
    }
}

fn push_nat(out: &mut String, n: u64)
    ensures
        final(out)@ == old(out)@ + nat_str(n as int),
    decreases n,
{
    if n < 10 {
        crate::chars::push_char(out, crate::chars::char_from_code(48 + n as u32));
        proof {
            assert(out@ =~= old(out)@ + nat_str(n as int));
        }
    } else {
        push_nat(out, n / 10);
        crate::chars::push_char(out, crate::chars::char_from_code(48 + (n % 10) as u32));
        proof {
            assert(out@ =~= old(out)@ + nat_str(n as int));
        }
    }
}

fn push_int(out: &mut String, i: i64)
    ensures
        final(out)@ == old(out)@ + int_str(i as int),
{
    if i < 0 {
        push_lit(out, "-");
        let mag: u64 = if i == i64::MIN {
            9223372036854775808u64
        } else {
            (-i) as u64
        };
        push_nat(out, mag);
        proof {
            assert(out@ =~= old(out)@ + int_str(i as int));
        }
    } else {
        push_nat(out, i as u64);
    }
}

fn push_relop_name(out: &mut String, op: Relop)
    ensures
        final(out)@ == old(out)@ + relop_name(op),
{
    match op {
        Relop::Eq => push_lit(out, "eq"),
        Relop::Neq => push_lit(out, "neq"),
        Relop::Geq => push_lit(out, "geq"),
        Relop::Gt => push_lit(out, "gt"),
        Relop::Leq => push_lit(out, "leq"),
        Relop::Lt => push_lit(out, "lt"),
    }
}

fn push_logop_name(out: &mut String, op: Logop)
    ensures
        final(out)@ == old(out)@ + logop_name(op),
{
    match op {
        Logop::And => push_lit(out, "and"),
        Logop::Or => push_lit(out, "or"),
    }
}

fn push_pfxop_name(out: &mut String, op: Pfxop)
    ensures
        final(out)@ == old(out)@ + pfxop_name(op),
{
    match op {
        Pfxop::Not => push_lit(out, "not"),
        Pfxop::Defined => push_lit(out, "defined"),
    }
}

fn push_envop_name(out: &mut String, op: Envop)
    ensures
        final(out)@ == old(out)@ + envop_name(op),
{
    match op {
        Envop::Eq => push_lit(out, "eq"),
        Envop::PlusEq => push_lit(out, "plus_eq"),
        Envop::EqPlus => push_lit(out, "eq_plus"),
        Envop::EqPlusEq => push_lit(out, "eq_plus_eq"),
        Envop::ColonEq => push_lit(out, "colon_eq"),
        Envop::EqColon => push_lit(out, "eq_colon"),
    }
}


/// Flattening: appending the pieces of `{"name":body}` one by one equals
/// appending the whole object.
proof fn lemma_key_obj_flat(o: Seq<char>, name: Seq<char>, body: Seq<char>)
    ensures
        o + ("{\"")@ + name + ("\":")@ + body + ("}")@ == o + key_obj(name, body),
{
    assert(o + ("{\"")@ + name + ("\":")@ + body + ("}")@ =~= o + key_obj(name, body));
}

/// Flattening for `{"name":[x,y]}` appended piece by piece.
proof fn lemma_key_arr2_flat(o: Seq<char>, name: Seq<char>, x: Seq<char>, y: Seq<char>)
    ensures
        o + ("{\"")@ + name + ("\":")@ + ("[")@ + x + (",")@ + y + ("]")@ + ("}")@ == o
            + key_obj(name, arr2(x, y)),
{
    assert(o + ("{\"")@ + name + ("\":")@ + ("[")@ + x + (",")@ + y + ("]")@ + ("}")@ =~= o
        + key_obj(name, arr2(x, y)));
}

/// Flattening for `[inner]` appended piece by piece.
proof fn lemma_brackets_flat(o: Seq<char>, inner: Seq<char>)
    ensures
        o + ("[")@ + inner + ("]")@ == o + (("[")@ + inner + ("]")@),
{
    assert(o + ("[")@ + inner + ("]")@ =~= o + (("[")@ + inner + ("]")@));
}

/// Flattening for an option-suffix object appended piece by piece.
proof fn lemma_option_flat(o: Seq<char>, jv: Seq<char>, jo: Seq<char>)
    ensures
        o + ("{\"__value__\":")@ + jv + (",\"__options__\":[")@ + jo + ("]}")@ == o + (
        ("{\"__value__\":")@ + jv + (",\"__options__\":[")@ + jo + ("]}")@),
{
    assert(o + ("{\"__value__\":")@ + jv + (",\"__options__\":[")@ + jo + ("]}")@ =~= o + (
    ("{\"__value__\":")@ + jv + (",\"__options__\":[")@ + jo + ("]}")@));
}

#[verifier::rlimit(100)]
fn push_value(out: &mut String, v: &Value)
    ensures
        final(out)@ == old(out)@ + json_of_value(v@),
    decreases v,
{
    match v {
        Value::Bool(b) => {
            if *b {
                push_lit(out, "true");
            } else {
                push_lit(out, "false");
            }
        },
        Value::Int(i) => {
            push_int(out, *i);
        },
        Value::String(s) => {
            push_json_str(out, s);
        },
        Value::Ident(s) => {
            push_lit(out, "{\"");
            push_lit(out, "__id__");
            push_lit(out, "\":");
            push_json_str(out, s);
            push_lit(out, "}");
            proof {
                lemma_key_obj_flat(old(out)@, ("__id__")@, json_str(s@));
            }
        },
        Value::Relop(op, a, b) => {
            push_lit(out, "{\"");
            push_relop_name(out, *op);
            push_lit(out, "\":");
            push_lit(out, "[");
            push_value(out, &**a);
            push_lit(out, ",");
            push_value(out, &**b);
            push_lit(out, "]");
            push_lit(out, "}");
            proof {
                lemma_key_arr2_flat(
                    old(out)@,
                    relop_name(*op),
                    json_of_value((**a)@),
                    json_of_value((**b)@),
                );
            }
        },
        Value::PrefixRelop(op, a) => {
            push_lit(out, "{\"");
            push_relop_name(out, *op);
            push_lit(out, "\":");
            push_value(out, &**a);
            push_lit(out, "}");
            proof {
                lemma_key_obj_flat(old(out)@, relop_name(*op), json_of_value((**a)@));
            }
        },
        Value::Logop(op, a, b) => {
            push_lit(out, "{\"");
            push_logop_name(out, *op);
            push_lit(out, "\":");
            push_lit(out, "[");
            push_value(out, &**a);
            push_lit(out, ",");
            push_value(out, &**b);
            push_lit(out, "]");
            push_lit(out, "}");
            proof {
                lemma_key_arr2_flat(
                    old(out)@,
                    logop_name(*op),
                    json_of_value((**a)@),
                    json_of_value((**b)@),
                );
            }
        },
        Value::Pfxop(op, a) => {
            push_lit(out, "{\"");
            push_pfxop_name(out, *op);
            push_lit(out, "\":");
            push_value(out, &**a);
            push_lit(out, "}");
            proof {
                lemma_key_obj_flat(old(out)@, pfxop_name(*op), json_of_value((**a)@));
            }
        },
        Value::EnvBinding(a, op, b) => {
            push_lit(out, "{\"");
            push_envop_name(out, *op);
            push_lit(out, "\":");
            push_lit(out, "[");
            push_value(out, &**a);
            push_lit(out, ",");
            push_value(out, &**b);
            push_lit(out, "]");
            push_lit(out, "}");
            proof {
                lemma_key_arr2_flat(
                    old(out)@,
                    envop_name(*op),
                    json_of_value((**a)@),
                    json_of_value((**b)@),
                );
            }
        },
        Value::List(l) => {
            push_lit(out, "[");
            push_values(out, l, 0);
            push_lit(out, "]");
            proof {
                lemma_brackets_flat(old(out)@, json_of_values(values_view(l@), 0));
            }
        },
        Value::Group(l) => {
            push_lit(out, "[");
            push_values(out, l, 0);
            push_lit(out, "]");
            proof {
                lemma_brackets_flat(old(out)@, json_of_values(values_view(l@), 0));
            }
        },
        Value::Option(v0, opts) => {
            push_lit(out, "{\"__value__\":");
            push_value(out, &**v0);
            push_lit(out, ",\"__options__\":[");
            push_values(out, opts, 0);
            push_lit(out, "]}");
            proof {
                lemma_option_flat(
                    old(out)@,
                    json_of_value((**v0)@),
                    json_of_values(values_view(opts@), 0),
                );
            }
        },
    }
}

fn push_values(out: &mut String, l: &Vec<Box<Value>>, from: usize)
    requires
        from <= l@.len(),
    ensures
        final(out)@ == old(out)@ + json_of_values(values_view(l@), from as int),
    decreases l, l@.len() - from,
{
    proof {
        lemma_values_view_index(l@);
    }
    if from < l.len() {
        let bx: &Box<Value> = &l[from];
        push_value(out, &**bx);
        if from + 1 < l.len() {
            push_lit(out, ",");
            push_values(out, l, from + 1);
        }
        proof {
            assert(out@ =~= old(out)@ + json_of_values(values_view(l@), from as int));
        }
    } else {
        proof {
            assert(out@ =~= old(out)@ + json_of_values(values_view(l@), from as int));
        }
    }
}

fn push_item(out: &mut String, it: &Item)
    ensures
        final(out)@ == old(out)@ + json_of_item(it@),
    decreases it,
{
    match it {
        Item::Variable(v) => {
            push_value(out, v);
        },
        Item::Section { name, items } => {
            push_lit(out, "{");
            push_entries(out, items, 0);
            match name {
                Some(n) => {
                    if items.len() > 0 {
                        push_lit(out, ",");
                    }
                    push_lit(out, "\"__name__\":");
                    push_json_str(out, n);
                },
                None => {},
            }
            push_lit(out, "}");
            proof {
                lemma_items_view_index(items@);
                assert(out@ =~= old(out)@ + json_of_item(it@));
            }
        },
    }
}

fn push_entries(out: &mut String, es: &Vec<(String, Box<Item>)>, from: usize)
    requires
        from <= es@.len(),
    ensures
        final(out)@ == old(out)@ + json_of_entries(items_view(es@), from as int),
    decreases es, es@.len() - from,
{
    proof {
        lemma_items_view_index(es@);
    }
    if from < es.len() {
        push_json_str(out, &es[from].0);
        push_lit(out, ":");
        push_item(out, &*es[from].1);
        if from + 1 < es.len() {
            push_lit(out, ",");
            push_entries(out, es, from + 1);
        }
        proof {
            assert(out@ =~= old(out)@ + json_of_entries(items_view(es@), from as int));
        }
    } else {
        proof {
            assert(out@ =~= old(out)@ + json_of_entries(items_view(es@), from as int));
        }
    }
}

/// The JSON text of a parsed file, exactly as `json_of_file` defines it.
pub fn print_json(f: &OpamFile) -> (r: String)
    ensures
        r@ == json_of_file(f@),
{
    let mut out: String = String::new();
    push_lit(&mut out, "{");
    push_entries(&mut out, &f.items, 0);
    push_lit(&mut out, "}");
    proof {
        assert(out@ =~= json_of_file(f@));
    }
    out
}

/// A JSON serializer holding the tree it encodes.
pub struct JsonPrinter<'a> {
    ast: &'a OpamFile,
}

impl<'a> View for JsonPrinter<'a> {
    type V = Seq<(Seq<char>, ItemModel)>;

    closed spec fn view(&self) -> Seq<(Seq<char>, ItemModel)> {
        self.ast@
    }
}

impl<'a> JsonPrinter<'a> {
    pub fn new(ast: &'a OpamFile) -> (r: JsonPrinter<'a>)
        ensures
            r@ == ast@,
    {
        JsonPrinter { ast }
    }

    /// The JSON text of the wrapped file.
    pub fn to_json_string(&self) -> (r: String)
        ensures
            r@ == json_of_file(self@),
    {
        print_json(self.ast)
    }
}

} // verus!
