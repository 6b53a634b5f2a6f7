//! Grammar engine for the opam file syntax.
//!
//! `parse` turns the lexer's token stream into an `OpamFile`, or reports the
//! first offending token (or the end of input) with a fixed message.  The
//! grammar, with its disambiguation rules, is defined by the specification
//! functions in `grammar`, and `parse`'s contract states that it builds
//! exactly that tree.

use vstd::prelude::*;

pub mod grammar;

verus! {

use crate::lexer::{Envop, Logop, Pfxop, Relop};
use vstd::pervasive::VecAdditionalExecFns;

/// A parsed file: an ordered mapping from identifiers to items.  Keys are
/// unique; an insert for an existing key overwrites the stored item but
/// keeps the key's original position.
#[derive(Debug, PartialEq)]
pub struct OpamFile {
    pub items: Vec<(String, Box<Item>)>,
}

/// An expression tree attached to a variable.
#[derive(Debug, PartialEq)]
pub enum Value {
    Bool(bool),
    Int(i64),
    String(String),
    Relop(Relop, Box<Value>, Box<Value>),
    PrefixRelop(Relop, Box<Value>),
    Logop(Logop, Box<Value>, Box<Value>),
    Pfxop(Pfxop, Box<Value>),
    Ident(String),
    List(Vec<Box<Value>>),
    Group(Vec<Box<Value>>),
    Option(Box<Value>, Vec<Box<Value>>),
    EnvBinding(Box<Value>, Envop, Box<Value>),
}

/// A named entry: a nested section or a variable binding.
#[derive(Debug, PartialEq)]
pub enum Item {
    Section { name: Option<String>, items: Vec<(String, Box<Item>)> },
    Variable(Value),
}

// ---------------------------------------------------------------------------
// Mathematical models
// ---------------------------------------------------------------------------

/// Model of a `Value`: text as character sequences, integers unbounded.
pub enum ValueModel {
    Bool(bool),
    Int(int),
    Str(Seq<char>),
    Relop(Relop, Box<ValueModel>, Box<ValueModel>),
    PrefixRelop(Relop, Box<ValueModel>),
    Logop(Logop, Box<ValueModel>, Box<ValueModel>),
    Pfxop(Pfxop, Box<ValueModel>),
    Ident(Seq<char>),
    List(Seq<ValueModel>),
    Group(Seq<ValueModel>),
    Option(Box<ValueModel>, Seq<ValueModel>),
    EnvBinding(Box<ValueModel>, Envop, Box<ValueModel>),
}

/// Model of an `Item`.
pub enum ItemModel {
    Section { name: Option<Seq<char>>, items: Seq<(Seq<char>, ItemModel)> },
    Variable(ValueModel),
}

pub open spec fn value_view(v: Value) -> ValueModel
    decreases v,
{
    match v {
        Value::Bool(b) => ValueModel::Bool(b),
        Value::Int(i) => ValueModel::Int(i as int),
        Value::String(s) => ValueModel::Str(s@),
        Value::Relop(op, a, b) => ValueModel::Relop(
            op,
            Box::new(value_view(*a)),
            Box::new(value_view(*b)),
        ),
        Value::PrefixRelop(op, a) => ValueModel::PrefixRelop(op, Box::new(value_view(*a))),
        Value::Logop(op, a, b) => ValueModel::Logop(
            op,
            Box::new(value_view(*a)),
            Box::new(value_view(*b)),
        ),
        Value::Pfxop(op, a) => ValueModel::Pfxop(op, Box::new(value_view(*a))),
        Value::Ident(s) => ValueModel::Ident(s@),
        Value::List(l) => ValueModel::List(values_view(l@)),
        Value::Group(l) => ValueModel::Group(values_view(l@)),
        Value::Option(v0, l) => ValueModel::Option(Box::new(value_view(*v0)), values_view(l@)),
        Value::EnvBinding(a, op, b) => ValueModel::EnvBinding(
            Box::new(value_view(*a)),
            op,
            Box::new(value_view(*b)),
        ),
    }
}

pub open spec fn values_view(l: Seq<Box<Value>>) -> Seq<ValueModel>
    decreases l,
{
    if l.len() == 0 {
        Seq::empty()
    } else {
        seq![value_view(*l[0])] + values_view(l.drop_first())
    }
}

pub open spec fn item_view(it: Item) -> ItemModel
    decreases it,
{
    match it {
        Item::Section { name, items } => ItemModel::Section {
            name: match name {
                Some(n) => Some(n@),
                None => None,
            },
            items: items_view(items@),
        },
        Item::Variable(v) => ItemModel::Variable(value_view(v)),
    }
}

pub open spec fn items_view(es: Seq<(String, Box<Item>)>) -> Seq<(Seq<char>, ItemModel)>
    decreases es,
{
    if es.len() == 0 {
        Seq::empty()
    } else {
        seq![(es[0].0@, item_view(*es[0].1))] + items_view(es.drop_first())
    }
}

impl View for Value {
    type V = ValueModel;

    open spec fn view(&self) -> ValueModel {
        value_view(*self)
    }
}

impl View for Item {
    type V = ItemModel;

    open spec fn view(&self) -> ItemModel {
        item_view(*self)
    }
}

impl View for OpamFile {
    type V = Seq<(Seq<char>, ItemModel)>;

    open spec fn view(&self) -> Seq<(Seq<char>, ItemModel)> {
        items_view(self.items@)
    }
}

// ---------------------------------------------------------------------------
// The ordered mapping
// ---------------------------------------------------------------------------

/// Index of the first entry with the given key, or `-1` when absent.
pub open spec fn key_index(es: Seq<(Seq<char>, ItemModel)>, key: Seq<char>) -> int
    decreases es.len(),
{
    if es.len() == 0 {
        -1
    } else if es[0].0 == key {
        0
    } else {
        let r = key_index(es.drop_first(), key);
        if r < 0 {
            -1
        } else {
            r + 1
        }
    }
}

/// Insert into the ordered mapping: an existing key keeps its position and
/// has its item overwritten; a new key is appended.
pub open spec fn insert_model(
    es: Seq<(Seq<char>, ItemModel)>,
    key: Seq<char>,
    it: ItemModel,
) -> Seq<(Seq<char>, ItemModel)> {
    let k = key_index(es, key);
    if k < 0 {
        es.push((key, it))
    } else {
        es.update(k, (key, it))
    }
}

pub proof fn lemma_key_index(es: Seq<(Seq<char>, ItemModel)>, key: Seq<char>)
    ensures
        key_index(es, key) == -1 ==> forall|m: int|
            0 <= m < es.len() ==> (#[trigger] es[m]).0 != key,
        key_index(es, key) >= 0 ==> 0 <= key_index(es, key) < es.len() && es[key_index(
            es,
            key,
        )].0 == key && forall|m: int| 0 <= m < key_index(es, key) ==> (#[trigger] es[m]).0 != key,
    decreases es.len(),
{
    if es.len() > 0 && es[0].0 != key {
        lemma_key_index(es.drop_first(), key);
        let r = key_index(es.drop_first(), key);
        if r >= 0 {
            assert(forall|m: int|
                1 <= m < es.len() ==> (#[trigger] es[m]) == es.drop_first()[m - 1]);
        } else {
            assert(forall|m: int|
                1 <= m < es.len() ==> (#[trigger] es[m]) == es.drop_first()[m - 1]);
        }
    }
}

/// The ordered mapping's law: inserting for a key that is present keeps
/// every key at its position and replaces only that key's item, while a key
/// that is absent is appended at the end.  First occurrence wins for the
/// position, last write wins for the item.
pub proof fn lemma_insert_model_law(es: Seq<(Seq<char>, ItemModel)>, key: Seq<char>, it: ItemModel)
    ensures
        key_index(es, key) >= 0 ==> {
            let r = insert_model(es, key, it);
            &&& r.len() == es.len()
            &&& r[key_index(es, key)] == (key, it)
            &&& forall|m: int| 0 <= m < es.len() && m != key_index(es, key) ==> r[m] == es[m]
            &&& forall|m: int| 0 <= m < es.len() ==> (#[trigger] r[m]).0 == es[m].0
        },
        key_index(es, key) == -1 ==> {
            let r = insert_model(es, key, it);
            &&& r.len() == es.len() + 1
            &&& r[es.len() as int] == (key, it)
            &&& forall|m: int| 0 <= m < es.len() ==> r[m] == es[m]
        },
{
    lemma_key_index(es, key);
}

/// `items_view` of a pushed entry.
pub proof fn lemma_items_view_push(es: Seq<(String, Box<Item>)>, e: (String, Box<Item>))
    ensures
        items_view(es.push(e)) == items_view(es).push((e.0@, item_view(*e.1))),
    decreases es.len(),
{
    if es.len() == 0 {
        assert(es.push(e).drop_first() =~= Seq::<(String, Box<Item>)>::empty());
        assert(items_view(es.push(e).drop_first()) =~= Seq::<(Seq<char>, ItemModel)>::empty());
        assert(items_view(es.push(e)) =~~= items_view(es).push((e.0@, item_view(*e.1))));
    } else {
        assert(es.push(e).drop_first() =~= es.drop_first().push(e));
        lemma_items_view_push(es.drop_first(), e);
        assert(items_view(es.push(e)) =~~= items_view(es).push((e.0@, item_view(*e.1))));
    }
}

/// `items_view` of an updated entry.
pub proof fn lemma_items_view_update(
    es: Seq<(String, Box<Item>)>,
    k: int,
    e: (String, Box<Item>),
)
    requires
        0 <= k < es.len(),
    ensures
        items_view(es.update(k, e)) == items_view(es).update(k, (e.0@, item_view(*e.1))),
    decreases es.len(),
{
    lemma_items_view_index(es);
    if k == 0 {
        assert(es.update(0, e).drop_first() =~= es.drop_first());
        assert(es.update(0, e)[0] == e);
        assert(items_view(es.update(0, e)) =~~= items_view(es).update(0, (e.0@, item_view(*e.1))));
    } else {
        assert(es.update(k, e).drop_first() =~= es.drop_first().update(k - 1, e));
        assert(es.update(k, e)[0] == es[0]);
        lemma_items_view_update(es.drop_first(), k - 1, e);
        assert(items_view(es.update(k, e)) =~~= items_view(es).update(k, (e.0@, item_view(*e.1))));
    }
}

/// `items_view` indexes entry by entry.
pub proof fn lemma_items_view_index(es: Seq<(String, Box<Item>)>)
    ensures
        items_view(es).len() == es.len(),
        forall|m: int|
            0 <= m < es.len() ==> (#[trigger] items_view(es)[m]) == (
                es[m].0@,
                item_view(*es[m].1),
            ),
    decreases es.len(),
{
    if es.len() > 0 {
        lemma_items_view_index(es.drop_first());
        assert(forall|m: int|
            1 <= m < es.len() ==> (#[trigger] es.drop_first()[m - 1]) == es[m]);
    }
}

/// `values_view` indexes element by element.
pub proof fn lemma_values_view_index(l: Seq<Box<Value>>)
    ensures
        values_view(l).len() == l.len(),
        forall|m: int| 0 <= m < l.len() ==> (#[trigger] values_view(l)[m]) == value_view(*l[m]),
    decreases l.len(),
{
    if l.len() > 0 {
        lemma_values_view_index(l.drop_first());
        assert(forall|m: int| 1 <= m < l.len() ==> (#[trigger] l.drop_first()[m - 1]) == l[m]);
    }
}

/// Insert an item into the ordered mapping, as `insert_model` describes:
/// last write wins for the value, first occurrence wins for the position.
pub fn insert_item(items: &mut Vec<(String, Box<Item>)>, key: String, it: Box<Item>)
    ensures
        items_view(final(items)@) == insert_model(items_view(old(items)@), key@, item_view(*it)),
{
    proof {
        lemma_items_view_index(items@);
        lemma_key_index(items_view(items@), key@);
    }
    let ghost es0 = items_view(items@);
    let mut k: usize = 0;
    while k < items.len()
        invariant
            k <= items@.len(),
            es0 == items_view(items@),
            es0 == items_view(old(items)@),
            items_view(items@).len() == items@.len(),
            forall|m: int|
                0 <= m < items@.len() ==> (#[trigger] items_view(items@)[m]) == (
                    items@[m].0@,
                    item_view(*items@[m].1),
                ),
            forall|m: int| 0 <= m < k ==> (#[trigger] items_view(items@)[m]).0 != key@,
        decreases items@.len() - k,
    {
        if items[k].0 == key {
            proof {
                lemma_key_index(es0, key@);
                assert(es0[k as int].0 == key@);
                assert(key_index(es0, key@) == k as int);
                lemma_items_view_update(items@, k as int, (key, it));
            }
            items.set(k, (key, it));
            return ;
        }
        k = k + 1;
    }
    proof {
        lemma_key_index(es0, key@);
        assert(key_index(es0, key@) == -1);
        lemma_items_view_push(items@, (key, it));
    }
    items.push((key, it));
}

// ---------------------------------------------------------------------------
// The executable parser, verified against `grammar`
// ---------------------------------------------------------------------------

use crate::lexer::{tokens_view, Span, Token};

/// The error a failed parse returns: the offending token with its span
/// (absent at end of input), and a fixed message.
pub open spec fn perr_view(e: (Option<(Token, Span)>, &'static str)) -> grammar::PErr {
    match e.0 {
        Some(p) => grammar::PErr::Tok { t: p.0@, sp: p.1@ },
        None => grammar::PErr::Eof,
    }
}

/// The fixed messages: one for an offending token, one for end of input.
pub open spec fn msg_ok(e: (Option<(Token, Span)>, &'static str)) -> bool {
    e.1@ == match e.0 {
        Some(_) => "unexpected token"@,
        None => "unexpected end of input"@,
    }
}

/// A copy of a token, equal in model.
fn dup_token(t: &Token) -> (r: Token)
    ensures
        r@ == t@,
{
    match t {
        Token::COLON => Token::COLON,
        Token::LBRACE => Token::LBRACE,
        Token::RBRACE => Token::RBRACE,
        Token::LBRACKET => Token::LBRACKET,
        Token::RBRACKET => Token::RBRACKET,
        Token::LPAR => Token::LPAR,
        Token::RPAR => Token::RPAR,
        Token::STRING(s) => Token::STRING(s.clone()),
        Token::BOOL(b) => Token::BOOL(*b),
        Token::INT(i) => Token::INT(*i),
        Token::IDENT(s) => Token::IDENT(s.clone()),
        Token::RELOP(op) => Token::RELOP(*op),
        Token::LOGOP(op) => Token::LOGOP(*op),
        Token::PFXOP(op) => Token::PFXOP(*op),
        Token::ENVOP(op) => Token::ENVOP(*op),
    }
}

fn err_at_x(toks: &Vec<(Token, Span)>, p: usize) -> (r: (Option<(Token, Span)>, &'static str))
    ensures
        perr_view(r) == grammar::err_at(tokens_view(toks@), p as int),
        msg_ok(r),
{
    if p < toks.len() {
        (Some((dup_token(&toks[p].0), toks[p].1)), "unexpected token")
    } else {
        (None, "unexpected end of input")
    }
}

/// The atom value this token denotes, if it is an atom token.
fn atom_x(toks: &Vec<(Token, Span)>, p: usize) -> (r: Option<Value>)
    requires
        p < toks@.len(),
    ensures
        match r {
            Some(v) => grammar::atom_of(tokens_view(toks@)[p as int].0) == Some(v@),
            None => grammar::atom_of(tokens_view(toks@)[p as int].0) == None::<ValueModel>,
        },
{
    match &toks[p].0 {
        Token::IDENT(s) => Some(Value::Ident(s.clone())),
        Token::BOOL(b) => Some(Value::Bool(*b)),
        Token::INT(i) => Some(Value::Int(*i)),
        Token::STRING(s) => Some(Value::String(s.clone())),
        _ => None,
    }
}

fn parse_value_x(toks: &Vec<(Token, Span)>, pos: usize) -> (r: Result<
    (Value, usize),
    (Option<(Token, Span)>, &'static str),
>)
    requires
        pos <= toks@.len(),
    ensures
        match r {
            Ok(p) => grammar::parse_value(tokens_view(toks@), pos as int) == Ok::<
                (ValueModel, int),
                grammar::PErr,
            >((p.0@, p.1 as int)) && pos < p.1 <= toks@.len(),
            Err(e) => grammar::parse_value(tokens_view(toks@), pos as int) == Err::<
                (ValueModel, int),
                grammar::PErr,
            >(perr_view(e)) && msg_ok(e),
        },
    decreases toks@.len() - pos, 2int,
{
    if pos >= toks.len() {
        return Err((None, "unexpected end of input"));
    }
    match &toks[pos].0 {
        Token::PFXOP(op) => match parse_value_x(toks, pos + 1) {
            Ok(vp) => Ok((Value::Pfxop(*op, Box::new(vp.0)), vp.1)),
            Err(e) => Err(e),
        },
        Token::RELOP(op) => {
            if pos + 1 < toks.len() {
                match atom_x(toks, pos + 1) {
                    Some(a) => parse_suffix_x(
                        toks,
                        Value::PrefixRelop(*op, Box::new(a)),
                        pos + 2,
                    ),
                    None => Err(err_at_x(toks, pos + 1)),
                }
            } else {
                Err((None, "unexpected end of input"))
            }
        },
        Token::LPAR => match parse_values_x(toks, pos + 1) {
            Ok(vp) => {
                if vp.1 < toks.len() && matches!(&toks[vp.1].0, Token::RPAR) {
                    parse_suffix_x(toks, Value::Group(vp.0), vp.1 + 1)
                } else {
                    Err(err_at_x(toks, vp.1))
                }
            },
            Err(e) => Err(e),
        },
        Token::LBRACKET => match parse_values_x(toks, pos + 1) {
            Ok(vp) => {
                if vp.1 < toks.len() && matches!(&toks[vp.1].0, Token::RBRACKET) {
                    parse_suffix_x(toks, Value::List(vp.0), vp.1 + 1)
                } else {
                    Err(err_at_x(toks, vp.1))
                }
            },
            Err(e) => Err(e),
        },
        _ => match atom_x(toks, pos) {
            Some(a) => {
                if pos + 1 < toks.len() && matches!(&toks[pos + 1].0, Token::RELOP(_)) {
                    let op = match &toks[pos + 1].0 {
                        Token::RELOP(op) => *op,
                        _ => Relop::Eq,
                    };
                    if pos + 2 < toks.len() {
                        match atom_x(toks, pos + 2) {
                            Some(b) => parse_suffix_x(
                                toks,
                                Value::Relop(op, Box::new(a), Box::new(b)),
                                pos + 3,
                            ),
                            None => Err(err_at_x(toks, pos + 2)),
                        }
                    } else {
                        Err((None, "unexpected end of input"))
                    }
                } else if pos + 1 < toks.len() && matches!(&toks[pos + 1].0, Token::ENVOP(_)) {
                    let op = match &toks[pos + 1].0 {
                        Token::ENVOP(op) => *op,
                        _ => Envop::Eq,
                    };
                    if pos + 2 < toks.len() {
                        match atom_x(toks, pos + 2) {
                            Some(b) => parse_suffix_x(
                                toks,
                                Value::EnvBinding(Box::new(a), op, Box::new(b)),
                                pos + 3,
                            ),
                            None => Err(err_at_x(toks, pos + 2)),
                        }
                    } else {
                        Err((None, "unexpected end of input"))
                    }
                } else {
                    parse_suffix_x(toks, a, pos + 1)
                }
            },
            None => Err(err_at_x(toks, pos)),
        },
    }
}

fn parse_suffix_x(toks: &Vec<(Token, Span)>, v: Value, pos: usize) -> (r: Result<
    (Value, usize),
    (Option<(Token, Span)>, &'static str),
>)
    requires
        pos <= toks@.len(),
    ensures
        match r {
            Ok(p) => grammar::parse_suffix(tokens_view(toks@), v@, pos as int) == Ok::<
                (ValueModel, int),
                grammar::PErr,
            >((p.0@, p.1 as int)) && pos <= p.1 <= toks@.len(),
            Err(e) => grammar::parse_suffix(tokens_view(toks@), v@, pos as int) == Err::<
                (ValueModel, int),
                grammar::PErr,
            >(perr_view(e)) && msg_ok(e),
        },
    decreases toks@.len() - pos, 1int,
{
    if pos < toks.len() && matches!(&toks[pos].0, Token::LBRACE) {
        match parse_values_x(toks, pos + 1) {
            Ok(vp) => {
                if vp.1 < toks.len() && matches!(&toks[vp.1].0, Token::RBRACE) {
                    parse_suffix_x(toks, Value::Option(Box::new(v), vp.0), vp.1 + 1)
                } else {
                    Err(err_at_x(toks, vp.1))
                }
            },
            Err(e) => Err(e),
        }
    } else if pos < toks.len() && matches!(&toks[pos].0, Token::LOGOP(_)) {
        let op = match &toks[pos].0 {
            Token::LOGOP(op) => *op,
            _ => Logop::And,
        };
        match parse_value_x(toks, pos + 1) {
            Ok(vp) => Ok((Value::Logop(op, Box::new(v), Box::new(vp.0)), vp.1)),
            Err(e) => Err(e),
        }
    } else {
        Ok((v, pos))
    }
}

fn parse_values_x(toks: &Vec<(Token, Span)>, pos: usize) -> (r: Result<
    (Vec<Box<Value>>, usize),
    (Option<(Token, Span)>, &'static str),
>)
    requires
        pos <= toks@.len(),
    ensures
        match r {
            Ok(p) => grammar::parse_values(tokens_view(toks@), pos as int) == Ok::<
                (Seq<ValueModel>, int),
                grammar::PErr,
            >((values_view(p.0@), p.1 as int)) && pos <= p.1 <= toks@.len(),
            Err(e) => grammar::parse_values(tokens_view(toks@), pos as int) == Err::<
                (Seq<ValueModel>, int),
                grammar::PErr,
            >(perr_view(e)) && msg_ok(e),
        },
    decreases toks@.len() - pos, 3int,
{
    let start_one = pos < toks.len() && is_value_start_x(&toks[pos].0);
    if start_one {
        match parse_value_x(toks, pos) {
            Ok(vp) => match parse_values_x(toks, vp.1) {
                Ok(vsp) => {
                    let (mut vs, p2) = vsp;
                    proof {
                        lemma_values_view_insert_front(vs@, vp.0);
                    }
                    vs.insert(0, Box::new(vp.0));
                    Ok((vs, p2))
                },
                Err(e) => Err(e),
            },
            Err(e) => Err(e),
        }
    } else {
        proof {
            assert(values_view(Seq::<Box<Value>>::empty()) =~= Seq::<ValueModel>::empty());
        }
        Ok((Vec::new(), pos))
    }
}

fn is_value_start_x(t: &Token) -> (r: bool)
    ensures
        r == grammar::is_value_start(t@),
{
    match t {
        Token::IDENT(_) => true,
        Token::BOOL(_) => true,
        Token::INT(_) => true,
        Token::STRING(_) => true,
        Token::LPAR => true,
        Token::LBRACKET => true,
        Token::PFXOP(_) => true,
        Token::RELOP(_) => true,
        _ => false,
    }
}

/// `values_view` of a front insertion.
proof fn lemma_values_view_insert_front(l: Seq<Box<Value>>, v: Value)
    ensures
        values_view(l.insert(0, Box::new(v))) == seq![value_view(v)] + values_view(l),
{
    let l2 = l.insert(0, Box::new(v));
    assert(l2.len() == l.len() + 1);
    assert(*l2[0] == v);
    assert(l2.drop_first() =~= l);
}

fn parse_items_x(toks: &Vec<(Token, Span)>, start: usize) -> (r: Result<
    (Vec<(String, Box<Item>)>, usize),
    (Option<(Token, Span)>, &'static str),
>)
    requires
        start <= toks@.len(),
    ensures
        match r {
            Ok(p) => grammar::parse_items(tokens_view(toks@), start as int, Seq::empty()) == Ok::<
                (Seq<(Seq<char>, ItemModel)>, int),
                grammar::PErr,
            >((items_view(p.0@), p.1 as int)) && start <= p.1 <= toks@.len(),
            Err(e) => grammar::parse_items(tokens_view(toks@), start as int, Seq::empty()) == Err::<
                (Seq<(Seq<char>, ItemModel)>, int),
                grammar::PErr,
            >(perr_view(e)) && msg_ok(e),
        },
    decreases toks@.len() - start, 4int,
{
    let mut items: Vec<(String, Box<Item>)> = Vec::new();
    let mut pos: usize = start;
    proof {
        assert(items_view(items@) =~= Seq::<(Seq<char>, ItemModel)>::empty());
    }
    while pos < toks.len()
        invariant
            start <= pos <= toks@.len(),
            grammar::parse_items(tokens_view(toks@), start as int, Seq::empty())
                == grammar::parse_items(tokens_view(toks@), pos as int, items_view(items@)),
        decreases toks@.len() - pos,
    {
        let id: String = match &toks[pos].0 {
            Token::IDENT(s) => s.clone(),
            _ => {
                return Ok((items, pos));
            },
        };
        if pos + 1 >= toks.len() {
            return Err((None, "unexpected end of input"));
        }
        match &toks[pos + 1].0 {
            Token::COLON => match parse_value_x(toks, pos + 2) {
                Ok(vp) => {
                    insert_item(&mut items, id, Box::new(Item::Variable(vp.0)));
                    pos = vp.1;
                },
                Err(e) => {
                    return Err(e);
                },
            },
            Token::LBRACE => match parse_items_x(toks, pos + 2) {
                Ok(ip) => {
                    if ip.1 < toks.len() && matches!(&toks[ip.1].0, Token::RBRACE) {
                        insert_item(
                            &mut items,
                            id,
                            Box::new(Item::Section { name: None, items: ip.0 }),
                        );
                        pos = ip.1 + 1;
                    } else {
                        return Err(err_at_x(toks, ip.1));
                    }
                },
                Err(e) => {
                    return Err(e);
                },
            },
            Token::STRING(nm) => {
                let name: String = nm.clone();
                if pos + 2 < toks.len() && matches!(&toks[pos + 2].0, Token::LBRACE) {
                    match parse_items_x(toks, pos + 3) {
                        Ok(ip) => {
                            if ip.1 < toks.len() && matches!(&toks[ip.1].0, Token::RBRACE) {
                                insert_item(
                                    &mut items,
                                    id,
                                    Box::new(Item::Section { name: Some(name), items: ip.0 }),
                                );
                                pos = ip.1 + 1;
                            } else {
                                return Err(err_at_x(toks, ip.1));
                            }
                        },
                        Err(e) => {
                            return Err(e);
                        },
                    }
                } else {
                    return Err(err_at_x(toks, pos + 2));
                }
            },
            _ => {
                return Err(err_at_x(toks, pos + 1));
            },
        }
    }
    Ok((items, pos))
}

/// Parse a token stream into a file.  The result is exactly what
/// `grammar::parse_spec` defines: the ordered items on success, otherwise
/// the first offending token and its span (absent only at end of input)
/// with a fixed message.
pub fn parse(tokens: Vec<(Token, Span)>) -> (r: Result<
    OpamFile,
    (Option<(Token, Span)>, &'static str),
>)
    ensures
        match r {
            Ok(f) => grammar::parse_spec(tokens_view(tokens@)) == Ok::<
                Seq<(Seq<char>, ItemModel)>,
                grammar::PErr,
            >(f@),
            Err(e) => grammar::parse_spec(tokens_view(tokens@)) == Err::<
                Seq<(Seq<char>, ItemModel)>,
                grammar::PErr,
            >(perr_view(e)) && msg_ok(e),
        },
{
    match parse_items_x(&tokens, 0) {
        Ok(p) => {
            if p.1 < tokens.len() {
                Err(err_at_x(&tokens, p.1))
            } else {
                Ok(OpamFile { items: p.0 })
            }
        },
        Err(e) => Err(e),
    }
}

} // verus!
