//! Specification of the grammar.
//!
//! These functions define, over a sequence of token models, exactly which
//! tree the parser builds and which token (or end of input) it reports
//! otherwise.  The grammar is ambiguous at the naive level; the
//! disambiguation is part of the definition:
//!
//! - an atom is not finished while the next token is a relational or an
//!   environment operator (those first combine with the atom);
//! - a value is extended by `{...}` option-suffixes as long as they follow;
//! - a logical operator then combines the value with everything to its
//!   right, so logical chains associate to the right and bind loosest;
//! - a prefix operator applies to the whole value to its right.

use vstd::prelude::*;

verus! {

use crate::lexer::{SpanModel, TokenModel};
use crate::parser::{insert_model, ItemModel, ValueModel};

/// A syntax error: the offending token with its span, or the end of input.
pub enum PErr {
    Tok { t: TokenModel, sp: SpanModel },
    Eof,
}

pub open spec fn err_at(toks: Seq<(TokenModel, SpanModel)>, pos: int) -> PErr {
    if 0 <= pos < toks.len() {
        PErr::Tok { t: toks[pos].0, sp: toks[pos].1 }
    } else {
        PErr::Eof
    }
}

/// The value an atom token denotes, if the token is an atom.
pub open spec fn atom_of(t: TokenModel) -> Option<ValueModel> {
    match t {
        TokenModel::Ident(s) => Some(ValueModel::Ident(s)),
        TokenModel::Bool(b) => Some(ValueModel::Bool(b)),
        TokenModel::Int(i) => Some(ValueModel::Int(i)),
        TokenModel::Str(s) => Some(ValueModel::Str(s)),
        _ => None,
    }
}

/// Whether a value can start with this token.
pub open spec fn is_value_start(t: TokenModel) -> bool {
    match t {
        TokenModel::Ident(_) => true,
        TokenModel::Bool(_) => true,
        TokenModel::Int(_) => true,
        TokenModel::Str(_) => true,
        TokenModel::LPar => true,
        TokenModel::LBracket => true,
        TokenModel::Pfxop(_) => true,
        TokenModel::Relop(_) => true,
        _ => false,
    }
}

/// A parse position that is sure to have advanced and to stay in bounds:
/// the functions below always move past at least one token and never past
/// the end, so this is `p` itself; the guard only makes termination of the
/// definitions evident.
pub open spec fn bump(len: int, pos: int, p: int) -> int {
    if pos < p <= len {
        p
    } else {
        pos + 1
    }
}

/// Parse one value starting at `pos`.
pub open spec fn parse_value(
    toks: Seq<(TokenModel, SpanModel)>,
    pos: int,
) -> Result<(ValueModel, int), PErr>
    decreases toks.len() - pos, 2int when 0 <= pos <= toks.len()
{
    if pos >= toks.len() {
        Err(PErr::Eof)
    } else {
        match toks[pos].0 {
            TokenModel::Pfxop(op) => match parse_value(toks, pos + 1) {
                Ok((v, p)) => Ok((ValueModel::Pfxop(op, Box::new(v)), p)),
                Err(e) => Err(e),
            },
            TokenModel::Relop(op) => {
                if pos + 1 < toks.len() {
                    match atom_of(toks[pos + 1].0) {
                        Some(a) => parse_suffix(
                            toks,
                            ValueModel::PrefixRelop(op, Box::new(a)),
                            pos + 2,
                        ),
                        None => Err(err_at(toks, pos + 1)),
                    }
                } else {
                    Err(PErr::Eof)
                }
            },
            TokenModel::LPar => match parse_values(toks, pos + 1) {
                Ok((vs, p)) => {
                    if 0 <= p < toks.len() && toks[p].0 is RPar {
                        parse_suffix(toks, ValueModel::Group(vs), bump(toks.len() as int, pos, p + 1))
                    } else {
                        Err(err_at(toks, p))
                    }
                },
                Err(e) => Err(e),
            },
            TokenModel::LBracket => match parse_values(toks, pos + 1) {
                Ok((vs, p)) => {
                    if 0 <= p < toks.len() && toks[p].0 is RBracket {
                        parse_suffix(toks, ValueModel::List(vs), bump(toks.len() as int, pos, p + 1))
                    } else {
                        Err(err_at(toks, p))
                    }
                },
                Err(e) => Err(e),
            },
            _ => match atom_of(toks[pos].0) {
                Some(a) => {
                    if pos + 1 < toks.len() && toks[pos + 1].0 is Relop {
                        let op = toks[pos + 1].0->Relop_0;
                        if pos + 2 < toks.len() {
                            match atom_of(toks[pos + 2].0) {
                                Some(b) => parse_suffix(
                                    toks,
                                    ValueModel::Relop(op, Box::new(a), Box::new(b)),
                                    pos + 3,
                                ),
                                None => Err(err_at(toks, pos + 2)),
                            }
                        } else {
                            Err(PErr::Eof)
                        }
                    } else if pos + 1 < toks.len() && toks[pos + 1].0 is Envop {
                        let op = toks[pos + 1].0->Envop_0;
                        if pos + 2 < toks.len() {
                            match atom_of(toks[pos + 2].0) {
                                Some(b) => parse_suffix(
                                    toks,
                                    ValueModel::EnvBinding(Box::new(a), op, Box::new(b)),
                                    pos + 3,
                                ),
                                None => Err(err_at(toks, pos + 2)),
                            }
                        } else {
                            Err(PErr::Eof)
                        }
                    } else {
                        parse_suffix(toks, a, pos + 1)
                    }
                },
                None => Err(err_at(toks, pos)),
            },
        }
    }
}

/// Attach what may follow a finished value: any number of `{...}`
/// option-suffixes, then at most one logical combination with everything to
/// the right.
pub open spec fn parse_suffix(
    toks: Seq<(TokenModel, SpanModel)>,
    v: ValueModel,
    pos: int,
) -> Result<(ValueModel, int), PErr>
    decreases toks.len() - pos, 1int when 0 <= pos <= toks.len() + 1
{
    if pos < toks.len() && toks[pos].0 is LBrace {
        match parse_values(toks, pos + 1) {
            Ok((vs, p)) => {
                if 0 <= p < toks.len() && toks[p].0 is RBrace {
                    parse_suffix(toks, ValueModel::Option(Box::new(v), vs), bump(toks.len() as int, pos, p + 1))
                } else {
                    Err(err_at(toks, p))
                }
            },
            Err(e) => Err(e),
        }
    } else if pos < toks.len() && toks[pos].0 is Logop {
        let op = toks[pos].0->Logop_0;
        match parse_value(toks, pos + 1) {
            Ok((rhs, p)) => Ok((ValueModel::Logop(op, Box::new(v), Box::new(rhs)), p)),
            Err(e) => Err(e),
        }
    } else {
        Ok((v, pos))
    }
}

/// Parse values while one can start, as inside `(...)`, `[...]` or `{...}`.
pub open spec fn parse_values(
    toks: Seq<(TokenModel, SpanModel)>,
    pos: int,
) -> Result<(Seq<ValueModel>, int), PErr>
    decreases toks.len() - pos, 3int when 0 <= pos <= toks.len()
{
    if pos < toks.len() && is_value_start(toks[pos].0) {
        match parse_value(toks, pos) {
            Ok((v, p)) => match parse_values(toks, bump(toks.len() as int, pos, p)) {
                Ok((vs, p2)) => Ok((seq![v] + vs, p2)),
                Err(e) => Err(e),
            },
            Err(e) => Err(e),
        }
    } else {
        Ok((Seq::empty(), pos))
    }
}

/// Parse items while an identifier starts one, folding each into the
/// ordered mapping `acc`: a variable binding `IDENT : value`, an anonymous
/// section `IDENT { items }`, or a named section `IDENT "name" { items }`.
pub open spec fn parse_items(
    toks: Seq<(TokenModel, SpanModel)>,
    pos: int,
    acc: Seq<(Seq<char>, ItemModel)>,
) -> Result<(Seq<(Seq<char>, ItemModel)>, int), PErr>
    decreases toks.len() - pos, 4int when 0 <= pos <= toks.len()
{
    if pos < toks.len() && toks[pos].0 is Ident {
        let id = toks[pos].0->Ident_0;
        if pos + 1 < toks.len() {
            match toks[pos + 1].0 {
                TokenModel::Colon => match parse_value(toks, pos + 2) {
                    Ok((v, p)) => parse_items(
                        toks,
                        bump(toks.len() as int, pos, p),
                        insert_model(acc, id, ItemModel::Variable(v)),
                    ),
                    Err(e) => Err(e),
                },
                TokenModel::LBrace => match parse_items(toks, pos + 2, Seq::empty()) {
                    Ok((inner, p)) => {
                        if 0 <= p < toks.len() && toks[p].0 is RBrace {
                            parse_items(
                                toks,
                                bump(toks.len() as int, pos, p + 1),
                                insert_model(
                                    acc,
                                    id,
                                    ItemModel::Section { name: None, items: inner },
                                ),
                            )
                        } else {
                            Err(err_at(toks, p))
                        }
                    },
                    Err(e) => Err(e),
                },
                TokenModel::Str(name) => {
                    if pos + 2 < toks.len() && toks[pos + 2].0 is LBrace {
                        match parse_items(toks, pos + 3, Seq::empty()) {
                            Ok((inner, p)) => {
                                if 0 <= p < toks.len() && toks[p].0 is RBrace {
                                    parse_items(
                                        toks,
                                        bump(toks.len() as int, pos, p + 1),
                                        insert_model(
                                            acc,
                                            id,
                                            ItemModel::Section { name: Some(name), items: inner },
                                        ),
                                    )
                                } else {
                                    Err(err_at(toks, p))
                                }
                            },
                            Err(e) => Err(e),
                        }
                    } else {
                        Err(err_at(toks, pos + 2))
                    }
                },
                _ => Err(err_at(toks, pos + 1)),
            }
        } else {
            Err(PErr::Eof)
        }
    } else {
        Ok((acc, pos))
    }
}

/// Parse a whole token stream into a file: items up to the end of input;
/// anything left over is the offending token.
pub open spec fn parse_spec(
    toks: Seq<(TokenModel, SpanModel)>,
) -> Result<Seq<(Seq<char>, ItemModel)>, PErr> {
    match parse_items(toks, 0, Seq::empty()) {
        Ok((items, p)) => {
            if p < toks.len() {
                Err(err_at(toks, p))
            } else {
                Ok(items)
            }
        },
        Err(e) => Err(e),
    }
}

} // verus!
