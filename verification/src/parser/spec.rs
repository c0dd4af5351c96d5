//! What the Turtle parser computes, over the views of the tokens.
//!
//! Each function reads from token position `i` and gives its result together
//! with the position it stops at (also on failure, where the parser may have
//! skipped comments or consumed part of a construct).
use crate::model::{
    BaseV, BlankNodeV, LiteralV, NamedNodeV, POV, PrefixV, RDFLiteralV, TermV, TripleV, TurtleV,
};
use crate::lexer::lex_tokens;
use crate::token::{Span, TokenV};
use vstd::prelude::*;

verus! {

pub type Toks = Seq<(TokenV, Span)>;

/// The first position at or after `i` that holds no comment.
pub open spec fn skip_comments(ts: Toks, i: int) -> int
    decreases ts.len() - i,
{
    if 0 <= i < ts.len() && ts[i].0 is Comment {
        skip_comments(ts, i + 1)
    } else {
        i
    }
}

pub proof fn lemma_skip_comments(ts: Toks, i: int)
    requires
        0 <= i <= ts.len(),
    ensures
        i <= skip_comments(ts, i) <= ts.len(),
        skip_comments(ts, i) < ts.len() ==> !(ts[skip_comments(ts, i)].0 is Comment),
    decreases ts.len() - i,
{
    if i < ts.len() && ts[i].0 is Comment {
        lemma_skip_comments(ts, i + 1);
    }
}

/// The span from the start of token `start` to the end of token `end - 1`.
pub open spec fn tspan(ts: Toks, start: int, end: int) -> Span {
    Span { start: ts[start].1.start, end: ts[end - 1].1.end }
}

/// Reads the token `t` (after comments): its span on success.
pub open spec fn p_token(ts: Toks, i: int, t: TokenV) -> (Option<Span>, int) {
    let j = skip_comments(ts, i);
    if 0 <= j < ts.len() && ts[j].0 == t {
        (Some(ts[j].1), j + 1)
    } else {
        (None, j)
    }
}

/// Reads any number of `;` tokens: whether there was one.
pub open spec fn p_splits(ts: Toks, i: int) -> (bool, int)
    decreases ts.len() - i,
{
    let (r, j) = p_token(ts, i, TokenV::PredicateSplit);
    if r is Some && 0 <= i < j <= ts.len() {
        (true, p_splits(ts, j).1)
    } else {
        (false, j)
    }
}

pub open spec fn named_node_of(t: TokenV) -> Option<NamedNodeV> {
    match t {
        TokenV::IRIRef(x) => Some(NamedNodeV::Full(x)),
        TokenV::PNameLN(p, v) => Some(
            NamedNodeV::Prefixed {
                prefix: match p {
                    Some(p) => p,
                    None => Seq::empty(),
                },
                value: v,
            },
        ),
        _ => None,
    }
}

/// An IRI or a prefixed name.
pub open spec fn p_named_node(ts: Toks, i: int) -> (Option<(TermV, Span)>, int) {
    if i == ts.len() {
        (None, i)
    } else {
        let j = skip_comments(ts, i);
        if 0 <= j < ts.len() {
            match named_node_of(ts[j].0) {
                Some(n) => (Some((TermV::NamedNode(n), ts[j].1)), j + 1),
                None => (None, j),
            }
        } else {
            (None, j)
        }
    }
}

/// A query variable.
pub open spec fn p_variable(ts: Toks, i: int) -> (Option<(TermV, Span)>, int) {
    let j = skip_comments(ts, i);
    if 0 <= j < ts.len() {
        match ts[j].0 {
            TokenV::Variable(x) => (Some((TermV::Variable(x), ts[j].1)), j + 1),
            _ => (None, j),
        }
    } else {
        (None, j)
    }
}

/// The keyword `a`.
pub open spec fn p_predtype(ts: Toks, i: int) -> (Option<(TermV, Span)>, int) {
    match p_token(ts, i, TokenV::PredType) {
        (Some(s), j) => (Some((TermV::NamedNode(NamedNodeV::A), s)), j),
        (None, j) => (None, j),
    }
}

/// A string literal with an optional language tag or datatype, a number, or
/// a boolean.
pub open spec fn p_literal(ts: Toks, i: int) -> (Option<(TermV, Span)>, int) {
    if !(0 <= i < ts.len()) {
        (None, i)
    } else {
        let j = skip_comments(ts, i);
        if !(j < ts.len()) {
            (None, j)
        } else {
            match ts[j].0 {
                TokenV::Str(value, style) => {
                    let k = skip_comments(ts, j + 1);
                    let (lang, ty, end, ok) = if k < ts.len() {
                        match ts[k].0 {
                            TokenV::LangTag(tag) => (Some(tag), None, k + 1, true),
                            TokenV::DataTypeDelim => match p_named_node(ts, k + 1) {
                                (Some((TermV::NamedNode(n), _)), e) => (None, Some(n), e, true),
                                (_, e) => (None, None, e, false),
                            },
                            _ => (None, None, k, true),
                        }
                    } else {
                        (None, None, k, true)
                    };
                    if ok {
                        (
                            Some(
                                (
                                    TermV::Literal(
                                        LiteralV::RDF(
                                            RDFLiteralV {
                                                value,
                                                quote_style: style,
                                                lang,
                                                ty,
                                            },
                                        ),
                                    ),
                                    tspan(ts, i, end),
                                ),
                            ),
                            end,
                        )
                    } else {
                        (None, end)
                    }
                },
                TokenV::Number(v) => (Some((TermV::Literal(LiteralV::Numeric(v)), ts[j].1)), j + 1),
                TokenV::True => (Some((TermV::Literal(LiteralV::Boolean(true)), ts[j].1)), j + 1),
                TokenV::False => (
                    Some((TermV::Literal(LiteralV::Boolean(false)), ts[j].1)),
                    j + 1,
                ),
                _ => (None, j),
            }
        }
    }
}

// The mutually recursive part of the grammar. Each function decreases on
// (number of tokens left, rank); a call further into the tokens is guarded by
// the position having moved forward.
/// A blank node: a label, `[ predicate-objects ]`, or an empty `[]`.
pub open spec fn p_blank_node(ts: Toks, i: int) -> (Option<(TermV, Span)>, int)
    decreases ts.len() - i, 9int,
{
    if !(0 <= i < ts.len()) {
        (None, i)
    } else {
        let j = skip_comments(ts, i);
        if !(j < ts.len()) {
            (None, j)
        } else {
            match ts[j].0 {
                TokenV::BlankNodeLabel(l) => (
                    Some((TermV::BlankNode(BlankNodeV::Named(l)), ts[j].1)),
                    j + 1,
                ),
                TokenV::SqOpen => {
                    proof {
                        lemma_skip_comments(ts, i);
                    }
                    p_unnamed_bn(ts, j)
                },
                TokenV::ANON => (
                    Some((TermV::BlankNode(BlankNodeV::Unnamed(Seq::empty())), ts[j].1)),
                    j + 1,
                ),
                _ => (None, j),
            }
        }
    }
}

/// `[ predicate-objects ]`.
pub open spec fn p_unnamed_bn(ts: Toks, i: int) -> (Option<(TermV, Span)>, int)
    decreases ts.len() - i, 8int,
{
    if !(0 <= i < ts.len()) {
        (None, i)
    } else {
        match p_token(ts, i, TokenV::SqOpen) {
            (Some(_), j) => if i < j <= ts.len() {
                let (po, k) = p_pos(ts, j);
                match p_token(ts, k, TokenV::SqClose) {
                    (Some(_), end) => if end > i {
                        (Some((TermV::BlankNode(BlankNodeV::Unnamed(po)), tspan(ts, i, end))), end)
                    } else {
                        (None, end)
                    },
                    (None, e) => (None, e),
                }
            } else {
                (None, j)
            },
            (None, j) => (None, j),
        }
    }
}

/// `( objects )`.
pub open spec fn p_collection(ts: Toks, i: int) -> (Option<(TermV, Span)>, int)
    decreases ts.len() - i, 8int,
{
    if !(0 <= i < ts.len()) {
        (None, i)
    } else {
        match p_token(ts, i, TokenV::BracketOpen) {
            (Some(_), j) => if i < j <= ts.len() {
                let (terms, k) = p_objects(ts, j);
                match p_token(ts, k, TokenV::BracketClose) {
                    (Some(_), end) => if end > i {
                        (Some((TermV::Collection(terms), tspan(ts, i, end))), end)
                    } else {
                        (None, end)
                    },
                    (None, e) => (None, e),
                }
            } else {
                (None, j)
            },
            (None, j) => (None, j),
        }
    }
}

/// As many objects as can be read, one after the other.
pub open spec fn p_objects(ts: Toks, i: int) -> (Seq<(TermV, Span)>, int)
    decreases ts.len() - i, 11int,
{
    if !(0 <= i <= ts.len()) {
        (Seq::empty(), i)
    } else {
        match p_object(ts, i) {
            (Some(t), j) => if i < j <= ts.len() {
                let (rest, k) = p_objects(ts, j);
                (seq![t] + rest, k)
            } else {
                (seq![t], j)
            },
            (None, j) => (Seq::empty(), j),
        }
    }
}

/// A subject: an IRI, a blank node, a collection or a variable (the first
/// that reads).
pub open spec fn p_subject(ts: Toks, i: int) -> (Option<(TermV, Span)>, int)
    decreases ts.len() - i, 10int,
{
    if !(0 <= i <= ts.len()) {
        (None, i)
    } else {
        match p_named_node(ts, i) {
            (Some(t), j) => (Some(t), j),
            _ => match p_blank_node(ts, i) {
                (Some(t), j) => (Some(t), j),
                _ => match p_collection(ts, i) {
                    (Some(t), j) => (Some(t), j),
                    _ => match p_variable(ts, i) {
                        (Some(t), j) => (Some(t), j),
                        _ => (None, i),
                    },
                },
            },
        }
    }
}

/// A predicate: `a`, an IRI or a variable.
pub open spec fn p_predicate(ts: Toks, i: int) -> (Option<(TermV, Span)>, int) {
    match p_predtype(ts, i) {
        (Some(t), j) => (Some(t), j),
        _ => match p_named_node(ts, i) {
            (Some(t), j) => (Some(t), j),
            _ => match p_variable(ts, i) {
                (Some(t), j) => (Some(t), j),
                _ => (None, i),
            },
        },
    }
}

/// An object: an IRI, a blank node, a literal, a collection or a variable.
pub open spec fn p_object(ts: Toks, i: int) -> (Option<(TermV, Span)>, int)
    decreases ts.len() - i, 10int,
{
    if !(0 <= i <= ts.len()) {
        (None, i)
    } else {
        match p_named_node(ts, i) {
            (Some(t), j) => (Some(t), j),
            _ => match p_blank_node(ts, i) {
                (Some(t), j) => (Some(t), j),
                _ => match p_literal(ts, i) {
                    (Some(t), j) => (Some(t), j),
                    _ => match p_collection(ts, i) {
                        (Some(t), j) => (Some(t), j),
                        _ => match p_variable(ts, i) {
                            (Some(t), j) => (Some(t), j),
                            _ => (None, i),
                        },
                    },
                },
            },
        }
    }
}

/// Objects separated by commas; a missing object between commas is skipped.
pub open spec fn p_object_list(ts: Toks, i: int) -> (Seq<(TermV, Span)>, int)
    decreases ts.len() - i, 11int,
{
    if !(0 <= i <= ts.len()) {
        (Seq::empty(), i)
    } else {
        let (o, j) = p_object(ts, i);
        let head = match o {
            Some(t) => seq![t],
            None => Seq::empty(),
        };
        match p_token(ts, j, TokenV::Comma) {
            (Some(_), k) => if i < k <= ts.len() {
                let (rest, e) = p_object_list(ts, k);
                (head + rest, e)
            } else {
                (head, k)
            },
            (None, k) => (head, k),
        }
    }
}

/// A predicate with its objects.
pub open spec fn p_po(ts: Toks, i: int) -> (Option<(POV, Span)>, int)
    decreases ts.len() - i, 12int,
{
    if !(0 <= i <= ts.len()) {
        (None, i)
    } else {
        match p_predicate(ts, i) {
            (Some(predicate), j) => if i < j <= ts.len() {
                let (object, end) = p_object_list(ts, j);
                if end > i {
                    (Some((POV { predicate, object }, tspan(ts, i, end))), end)
                } else {
                    (None, end)
                }
            } else {
                (None, j)
            },
            (None, j) => (None, j),
        }
    }
}

/// Predicate-objects separated by one or more `;`.
pub open spec fn p_pos(ts: Toks, i: int) -> (Seq<(POV, Span)>, int)
    decreases ts.len() - i, 13int,
{
    if !(0 <= i <= ts.len()) {
        (Seq::empty(), i)
    } else {
        let (po, j) = p_po(ts, i);
        let head = match po {
            Some(p) => seq![p],
            None => Seq::empty(),
        };
        if !(i <= j <= ts.len()) {
            (head, j)
        } else {
            match p_splits(ts, j) {
                (true, k) => if i < k <= ts.len() {
                    let (rest, e) = p_pos(ts, k);
                    (head + rest, e)
                } else {
                    (head, k)
                },
                (false, k) => (head, k),
            }
        }
    }
}

/// `subject predicate-objects .`
pub open spec fn p_triple(ts: Toks, i: int) -> (Option<(TripleV, Span)>, int)
    decreases ts.len() - i, 14int,
{
    if !(0 <= i <= ts.len()) {
        (None, i)
    } else {
        match p_subject(ts, i) {
            (Some(subject), j) => if i < j <= ts.len() {
                let (po, k) = p_pos(ts, j);
                if po.len() == 0 {
                    (None, k)
                } else {
                    match p_token(ts, k, TokenV::Stop) {
                        (Some(_), end) => if end > i {
                            (Some((TripleV { subject, po }, tspan(ts, i, end))), end)
                        } else {
                            (None, end)
                        },
                        (None, e) => (None, e),
                    }
                }
            } else {
                (None, j)
            },
            (None, j) => (None, j),
        }
    }
}

/// `[ predicate-objects ] .`: a blank node that is a statement of its own.
pub open spec fn p_bn_triple(ts: Toks, i: int) -> (Option<(TripleV, Span)>, int) {
    match p_unnamed_bn(ts, i) {
        (Some(subject), j) => match p_token(ts, j, TokenV::Stop) {
            (Some(_), end) => if i < end {
                (Some((TripleV { subject, po: Seq::empty() }, tspan(ts, i, end))), end)
            } else {
                (None, end)
            },
            (None, e) => (None, e),
        },
        (None, j) => (None, j),
    }
}

/// `@base <iri> .` or `BASE <iri>`.
pub open spec fn p_base(ts: Toks, i: int) -> (Option<(BaseV, Span)>, int) {
    let j = skip_comments(ts, i);
    if !(0 <= i <= j < ts.len()) {
        (None, j)
    } else {
        let needs_stop = ts[j].0 is BaseTag;
        if !(ts[j].0 is BaseTag || ts[j].0 is SparqlBase) {
            (None, j)
        } else {
            match p_named_node(ts, j + 1) {
                (Some((TermV::NamedNode(nn), nspan)), k) => if needs_stop {
                    match p_token(ts, k, TokenV::Stop) {
                        (Some(_), end) => (
                            Some((BaseV(ts[j].1, (nn, nspan)), tspan(ts, i, end))),
                            end,
                        ),
                        (None, e) => (None, e),
                    }
                } else {
                    (Some((BaseV(ts[j].1, (nn, nspan)), tspan(ts, i, k))), k)
                },
                (_, k) => (None, k),
            }
        }
    }
}

/// `@prefix pre: <iri> .` or `PREFIX pre: <iri>`.
pub open spec fn p_prefix(ts: Toks, i: int) -> (Option<(PrefixV, Span)>, int) {
    let j = skip_comments(ts, i);
    if !(0 <= i <= j < ts.len()) {
        (None, j)
    } else {
        let needs_stop = ts[j].0 is PrefixTag;
        if !(ts[j].0 is PrefixTag || ts[j].0 is SparqlPrefix) {
            (None, j)
        } else {
            let k = skip_comments(ts, j + 1);
            if !(k < ts.len()) {
                (None, k)
            } else {
                match ts[k].0 {
                    TokenV::PNameLN(x, _) => {
                        let prefix = (
                            match x {
                                Some(p) => p,
                                None => Seq::empty(),
                            },
                            ts[k].1,
                        );
                        match p_named_node(ts, k + 1) {
                            (Some((TermV::NamedNode(nn), nspan)), m) => {
                                let value = (nn, nspan);
                                if needs_stop {
                                    match p_token(ts, m, TokenV::Stop) {
                                        (Some(_), end) => (
                                            Some(
                                                (
                                                    PrefixV { span: ts[j].1, prefix, value },
                                                    tspan(ts, i, end),
                                                ),
                                            ),
                                            end,
                                        ),
                                        (None, e) => (None, e),
                                    }
                                } else {
                                    (
                                        Some(
                                            (
                                                PrefixV { span: ts[j].1, prefix, value },
                                                tspan(ts, i, m),
                                            ),
                                        ),
                                        m,
                                    )
                                }
                            },
                            (_, m) => (None, m),
                        }
                    },
                    _ => (None, k),
                }
            }
        }
    }
}

/// One statement: a prefix declaration, a base declaration or a triple (the
/// first that reads), added to the document.
pub open spec fn p_statement(ts: Toks, i: int, doc: TurtleV) -> (Option<TurtleV>, int) {
    match p_prefix(ts, i) {
        (Some(p), j) => (Some(TurtleV { prefixes: doc.prefixes.push(p), ..doc }), j),
        _ => match p_base(ts, i) {
            (Some(b), j) => (Some(TurtleV { base: Some(b), ..doc }), j),
            _ => match p_triple(ts, i) {
                (Some(t), j) => (Some(TurtleV { triples: doc.triples.push(t), ..doc }), j),
                _ => match p_bn_triple(ts, i) {
                    (Some(t), j) => (Some(TurtleV { triples: doc.triples.push(t), ..doc }), j),
                    _ => (None, i),
                },
            },
        },
    }
}

/// Statements, one after the other, for as long as they read.
pub open spec fn p_statements(ts: Toks, i: int, doc: TurtleV) -> (TurtleV, int)
    decreases ts.len() - i,
{
    match p_statement(ts, i, doc) {
        (Some(d), j) => if 0 <= i < j <= ts.len() {
            p_statements(ts, j, d)
        } else {
            (d, j)
        },
        (None, j) => (doc, j),
    }
}


/// A document with nothing in it, read from `location`.
pub open spec fn empty_doc(location: Seq<char>) -> TurtleV {
    TurtleV { base: None, set_base: location, prefixes: Seq::empty(), triples: Seq::empty() }
}

/// The document that `source` holds: the statements read from the start of
/// its tokens, if nothing but comments follows them.
pub open spec fn source_doc(location: Seq<char>, source: Seq<char>) -> Option<TurtleV> {
    let ts = lex_tokens(source);
    let (d, j) = p_statements(ts, 0, empty_doc(location));
    if skip_comments(ts, j) >= ts.len() {
        Some(d)
    } else {
        None
    }
}

/// The first position at or after `i` that holds a `.`, or the end.
pub open spec fn next_stop(ts: Toks, i: int) -> int
    decreases ts.len() - i,
{
    if 0 <= i < ts.len() && ts[i].0 != TokenV::Stop {
        next_stop(ts, i + 1)
    } else {
        i
    }
}

/// Reads statements as `p_statements` does; where one fails, records the
/// token range from there up to and including the next `.` and goes on two
/// positions after that `.`. Gives the document, the failed ranges and the
/// final position.
pub open spec fn p_retry(ts: Toks, i: int, doc: TurtleV) -> (TurtleV, Seq<(int, int)>, int)
    decreases ts.len() - i,
{
    if !(0 <= i < ts.len()) {
        (doc, Seq::empty(), i)
    } else {
        let (d, j) = p_statements(ts, i, doc);
        let c = skip_comments(ts, j);
        if !(i <= j <= c < ts.len()) {
            (d, Seq::empty(), c)
        } else {
            let s = next_stop(ts, c);
            proof {
                lemma_next_stop(ts, c);
            }
            if s + 2 < ts.len() {
                let (d2, f, e) = p_retry(ts, s + 2, d);
                (d2, seq![(c, s + 1)] + f, e)
            } else {
                (d, seq![(c, s + 1)], s + 2)
            }
        }
    }
}

/// The empty span where something is missing before token `k`: at the
/// start of that token, or after the last token.
pub open spec fn gap_span(ts: Toks, k: int) -> Span {
    if 0 <= k < ts.len() {
        Span { start: ts[k].1.start, end: ts[k].1.start }
    } else if ts.len() > 0 {
        Span { start: ts[ts.len() - 1].1.end, end: ts[ts.len() - 1].1.end }
    } else {
        Span { start: 0, end: 0 }
    }
}

/// Whether the token at `i` (after comments) is an unreadable one.
pub open spec fn at_invalid(ts: Toks, i: int) -> bool {
    let k = skip_comments(ts, i);
    0 <= k < ts.len() && ts[k].0 is Invalid
}

/// A term read with recovery, given what reading it normally gave: that
/// term; else, where an unreadable token stands, an invalid term for it
/// (one error, the token's range); else an invalid term where it is missing
/// (one error, an empty range, nothing read).
pub open spec fn p_rterm(ts: Toks, i: int, read: (Option<(TermV, Span)>, int)) -> (
    (TermV, Span),
    int,
    Seq<(int, int)>,
) {
    let k = skip_comments(ts, i);
    match read.0 {
        Some(t) => (t, read.1, Seq::empty()),
        None => if at_invalid(ts, i) {
            ((TermV::Invalid, ts[k].1), k + 1, seq![(k, k + 1)])
        } else {
            ((TermV::Invalid, gap_span(ts, k)), k, seq![(k, k)])
        },
    }
}

/// A predicate with its objects, read with recovery: a predicate that does
/// not read becomes an invalid term, and so does a missing object list.
pub open spec fn p_rpo(ts: Toks, i: int) -> ((POV, Span), int, Seq<(int, int)>) {
    let (predicate, j, e1) = p_rterm(ts, i, p_predicate(ts, i));
    let (objs, k) = p_object_list(ts, j);
    let m = skip_comments(ts, k);
    let (object, e2) = if objs.len() == 0 {
        (seq![(TermV::Invalid, gap_span(ts, m))], seq![(m, m)])
    } else {
        (objs, Seq::<(int, int)>::empty())
    };
    let span = if i < k <= ts.len() {
        tspan(ts, i, k)
    } else {
        gap_span(ts, skip_comments(ts, i))
    };
    ((POV { predicate, object }, span), k, e1 + e2)
}

/// Whether another predicate-object follows at `k`: a predicate or an
/// unreadable token stands there.
pub open spec fn po_follows(ts: Toks, k: int) -> bool {
    p_predicate(ts, k).0 is Some || at_invalid(ts, k)
}

/// Predicate-objects separated by `;`, read with recovery; a trailing `;`
/// is read.
pub open spec fn p_rpos(ts: Toks, i: int) -> (Seq<(POV, Span)>, int, Seq<(int, int)>)
    decreases ts.len() - i,
{
    if !(0 <= i <= ts.len()) {
        (Seq::empty(), i, Seq::empty())
    } else {
        let (po, j, e) = p_rpo(ts, i);
        let (split, k) = p_splits(ts, j);
        if split && i < k <= ts.len() && po_follows(ts, k) {
            let (rest, m, e2) = p_rpos(ts, k);
            (seq![po] + rest, m, e + e2)
        } else if split {
            (seq![po], k, e)
        } else {
            (seq![po], j, e)
        }
    }
}

/// `subject predicate-objects .`, read with recovery: an unreadable
/// subject, predicate or object becomes an invalid term, a missing
/// predicate or object list an invalid term, and a missing `.` an error;
/// each gives one error. Fails only where no subject or unreadable token
/// starts it.
pub open spec fn p_rtriple(ts: Toks, i: int) -> (Option<(TripleV, Span)>, int, Seq<(int, int)>) {
    if !(0 <= i <= ts.len()) {
        (None, i, Seq::empty())
    } else {
        let read = p_subject(ts, i);
        if read.0 is None && !at_invalid(ts, i) {
            (None, i, Seq::empty())
        } else {
            let (subject, j, e0) = p_rterm(ts, i, read);
            let (po, k, e1) = p_rpos(ts, j);
            let (stop, m) = p_token(ts, k, TokenV::Stop);
            let km = skip_comments(ts, k);
            let (end, e2) = match stop {
                Some(_) => (m, Seq::<(int, int)>::empty()),
                None => (k, seq![(km, km)]),
            };
            (Some((TripleV { subject, po }, tspan(ts, i, end))), end, e0 + e1 + e2)
        }
    }
}

/// One statement read with recovery: a prefix or base declaration, a blank
/// node standing alone, or a triple read with recovery; with its errors.
pub open spec fn p_rstatement(ts: Toks, i: int, doc: TurtleV) -> (
    Option<(TurtleV, Seq<(int, int)>)>,
    int,
) {
    match p_prefix(ts, i) {
        (Some(p), j) => (Some((TurtleV { prefixes: doc.prefixes.push(p), ..doc }, Seq::empty())), j),
        _ => match p_base(ts, i) {
            (Some(b), j) => (Some((TurtleV { base: Some(b), ..doc }, Seq::empty())), j),
            _ => match p_bn_triple(ts, i) {
                (Some(t), j) => (
                    Some((TurtleV { triples: doc.triples.push(t), ..doc }, Seq::empty())),
                    j,
                ),
                _ => match p_rtriple(ts, i) {
                    (Some(t), j, e) => (Some((TurtleV { triples: doc.triples.push(t), ..doc }, e)), j),
                    _ => (None, i),
                },
            },
        },
    }
}

/// Reads statements with recovery, one after the other; where none reads,
/// records the token range up to and including the next `.` and reads on
/// after it. Gives the document, the errors (token ranges: the unreadable
/// token, an empty range where something is missing, or a skipped
/// statement) and the final position.
pub open spec fn p_recover(ts: Toks, i: int, doc: TurtleV) -> (TurtleV, Seq<(int, int)>, int)
    decreases ts.len() - i,
{
    if !(0 <= i < ts.len()) {
        (doc, Seq::empty(), i)
    } else {
        match p_rstatement(ts, i, doc) {
            (Some((d, e)), j) => if i < j <= ts.len() {
                let (d2, f, e2) = p_recover(ts, j, d);
                (d2, e + f, e2)
            } else {
                (d, e, j)
            },
            (None, _) => {
                let c = skip_comments(ts, i);
                if !(i <= c < ts.len()) {
                    (doc, Seq::empty(), c)
                } else {
                    let s = next_stop(ts, c);
                    proof {
                        lemma_next_stop(ts, c);
                    }
                    if s + 1 < ts.len() {
                        let (d2, f, e) = p_recover(ts, s + 1, doc);
                        (d2, seq![(c, s + 1)] + f, e)
                    } else {
                        (doc, seq![(c, s + 1)], s + 1)
                    }
                }
            },
        }
    }
}

} // verus!

verus! {

/// The position a read stops at lies between where it started and the end,
/// and a successful read moves forward.
pub open spec fn moved<T>(ts: Toks, i: int, r: (Option<T>, int)) -> bool {
    &&& i <= r.1 <= ts.len()
    &&& r.0 is Some ==> i < r.1
}

pub open spec fn moved_seq<T>(ts: Toks, i: int, r: (Seq<T>, int)) -> bool {
    i <= r.1 <= ts.len()
}

pub proof fn lemma_token(ts: Toks, i: int, t: TokenV)
    requires
        0 <= i <= ts.len(),
    ensures
        moved(ts, i, p_token(ts, i, t)),
{
    lemma_skip_comments(ts, i);
}

pub proof fn lemma_splits(ts: Toks, i: int)
    requires
        0 <= i <= ts.len(),
    ensures
        i <= p_splits(ts, i).1 <= ts.len(),
        p_splits(ts, i).0 ==> i < p_splits(ts, i).1,
    decreases ts.len() - i,
{
    lemma_token(ts, i, TokenV::PredicateSplit);
    let (r, j) = p_token(ts, i, TokenV::PredicateSplit);
    if r is Some {
        lemma_splits(ts, j);
    }
}

pub proof fn lemma_named_node(ts: Toks, i: int)
    requires
        0 <= i <= ts.len(),
    ensures
        moved(ts, i, p_named_node(ts, i)),
        p_named_node(ts, i).0 matches Some((t, _)) ==> t is NamedNode,
{
    lemma_skip_comments(ts, i);
}

pub proof fn lemma_variable(ts: Toks, i: int)
    requires
        0 <= i <= ts.len(),
    ensures
        moved(ts, i, p_variable(ts, i)),
{
    lemma_skip_comments(ts, i);
}

pub proof fn lemma_predicate(ts: Toks, i: int)
    requires
        0 <= i <= ts.len(),
    ensures
        moved(ts, i, p_predicate(ts, i)),
        moved(ts, i, p_predtype(ts, i)),
{
    lemma_token(ts, i, TokenV::PredType);
    lemma_named_node(ts, i);
    lemma_variable(ts, i);
}

pub proof fn lemma_literal(ts: Toks, i: int)
    requires
        0 <= i <= ts.len(),
    ensures
        moved(ts, i, p_literal(ts, i)),
{
    if 0 <= i < ts.len() {
        lemma_skip_comments(ts, i);
        let j = skip_comments(ts, i);
        if j < ts.len() {
            lemma_skip_comments(ts, j + 1);
            let k = skip_comments(ts, j + 1);
            if k < ts.len() {
                lemma_named_node(ts, k + 1);
            }
        }
    }
}

pub proof fn lemma_blank_node(ts: Toks, i: int)
    requires
        0 <= i <= ts.len(),
    ensures
        moved(ts, i, p_blank_node(ts, i)),
    decreases ts.len() - i, 9int,
{
    if 0 <= i < ts.len() {
        lemma_skip_comments(ts, i);
        let j = skip_comments(ts, i);
        if j < ts.len() && ts[j].0 is SqOpen {
            lemma_unnamed_bn(ts, j);
        }
    }
}

pub proof fn lemma_unnamed_bn(ts: Toks, i: int)
    requires
        0 <= i <= ts.len(),
    ensures
        moved(ts, i, p_unnamed_bn(ts, i)),
    decreases ts.len() - i, 8int,
{
    if 0 <= i < ts.len() {
        lemma_token(ts, i, TokenV::SqOpen);
        let (o, j) = p_token(ts, i, TokenV::SqOpen);
        if o is Some {
            lemma_pos(ts, j);
            let (_, k) = p_pos(ts, j);
            lemma_token(ts, k, TokenV::SqClose);
        }
    }
}

pub proof fn lemma_collection(ts: Toks, i: int)
    requires
        0 <= i <= ts.len(),
    ensures
        moved(ts, i, p_collection(ts, i)),
    decreases ts.len() - i, 8int,
{
    if 0 <= i < ts.len() {
        lemma_token(ts, i, TokenV::BracketOpen);
        let (o, j) = p_token(ts, i, TokenV::BracketOpen);
        if o is Some {
            lemma_objects(ts, j);
            let (_, k) = p_objects(ts, j);
            lemma_token(ts, k, TokenV::BracketClose);
        }
    }
}

pub proof fn lemma_objects(ts: Toks, i: int)
    requires
        0 <= i <= ts.len(),
    ensures
        moved_seq(ts, i, p_objects(ts, i)),
    decreases ts.len() - i, 11int,
{
    lemma_object(ts, i);
    let (o, j) = p_object(ts, i);
    if o is Some {
        lemma_objects(ts, j);
    }
}

pub proof fn lemma_subject(ts: Toks, i: int)
    requires
        0 <= i <= ts.len(),
    ensures
        moved(ts, i, p_subject(ts, i)),
    decreases ts.len() - i, 10int,
{
    lemma_named_node(ts, i);
    lemma_blank_node(ts, i);
    lemma_collection(ts, i);
    lemma_variable(ts, i);
}

pub proof fn lemma_object(ts: Toks, i: int)
    requires
        0 <= i <= ts.len(),
    ensures
        moved(ts, i, p_object(ts, i)),
    decreases ts.len() - i, 10int,
{
    lemma_named_node(ts, i);
    lemma_blank_node(ts, i);
    lemma_literal(ts, i);
    lemma_collection(ts, i);
    lemma_variable(ts, i);
}

pub proof fn lemma_object_list(ts: Toks, i: int)
    requires
        0 <= i <= ts.len(),
    ensures
        moved_seq(ts, i, p_object_list(ts, i)),
    decreases ts.len() - i, 11int,
{
    lemma_object(ts, i);
    let (_, j) = p_object(ts, i);
    lemma_token(ts, j, TokenV::Comma);
    let (c, k) = p_token(ts, j, TokenV::Comma);
    if c is Some {
        lemma_object_list(ts, k);
    }
}

pub proof fn lemma_po(ts: Toks, i: int)
    requires
        0 <= i <= ts.len(),
    ensures
        moved(ts, i, p_po(ts, i)),
    decreases ts.len() - i, 12int,
{
    lemma_predicate(ts, i);
    let (p, j) = p_predicate(ts, i);
    if p is Some {
        lemma_object_list(ts, j);
    }
}

pub proof fn lemma_pos(ts: Toks, i: int)
    requires
        0 <= i <= ts.len(),
    ensures
        moved_seq(ts, i, p_pos(ts, i)),
    decreases ts.len() - i, 13int,
{
    lemma_po(ts, i);
    let (_, j) = p_po(ts, i);
    lemma_splits(ts, j);
    let (s, k) = p_splits(ts, j);
    if s {
        lemma_pos(ts, k);
    }
}

pub proof fn lemma_triple(ts: Toks, i: int)
    requires
        0 <= i <= ts.len(),
    ensures
        moved(ts, i, p_triple(ts, i)),
        moved(ts, i, p_bn_triple(ts, i)),
    decreases ts.len() - i, 14int,
{
    lemma_subject(ts, i);
    let (s, j) = p_subject(ts, i);
    if s is Some {
        lemma_pos(ts, j);
        let (_, k) = p_pos(ts, j);
        lemma_token(ts, k, TokenV::Stop);
    }
    lemma_unnamed_bn(ts, i);
    let (b, j2) = p_unnamed_bn(ts, i);
    lemma_token(ts, j2, TokenV::Stop);
}

pub proof fn lemma_statement(ts: Toks, i: int, doc: TurtleV)
    requires
        0 <= i <= ts.len(),
    ensures
        moved(ts, i, p_statement(ts, i, doc)),
        moved(ts, i, p_prefix(ts, i)),
        moved(ts, i, p_base(ts, i)),
{
    lemma_skip_comments(ts, i);
    let j = skip_comments(ts, i);
    if j < ts.len() {
        lemma_skip_comments(ts, j + 1);
        let k = skip_comments(ts, j + 1);
        lemma_named_node(ts, j + 1);
        let (_, m0) = p_named_node(ts, j + 1);
        lemma_token(ts, m0, TokenV::Stop);
        if k < ts.len() {
            lemma_named_node(ts, k + 1);
            let (_, m) = p_named_node(ts, k + 1);
            lemma_token(ts, m, TokenV::Stop);
        }
    }
    lemma_triple(ts, i);
}

pub proof fn lemma_next_stop(ts: Toks, i: int)
    requires
        0 <= i <= ts.len(),
    ensures
        i <= next_stop(ts, i) <= ts.len(),
    decreases ts.len() - i,
{
    if i < ts.len() && ts[i].0 != TokenV::Stop {
        lemma_next_stop(ts, i + 1);
    }
}

pub proof fn lemma_statements(ts: Toks, i: int, doc: TurtleV)
    requires
        0 <= i <= ts.len(),
    ensures
        i <= p_statements(ts, i, doc).1 <= ts.len(),
    decreases ts.len() - i,
{
    lemma_statement(ts, i, doc);
    let (d, j) = p_statement(ts, i, doc);
    if d is Some {
        lemma_statements(ts, j, d.unwrap());
    }
}

} // verus!

verus! {

/// The ranges that reading with retries reports as failed are ordered and
/// apart: each starts at or after where reading began, ends after it
/// starts and at most one past the end, and the next starts after it ends.
pub proof fn lemma_retry_ranges(ts: Toks, i: int, doc: TurtleV)
    requires
        0 <= i <= ts.len(),
    ensures
        ({
            let f = p_retry(ts, i, doc).1;
            &&& forall|k: int|
                0 <= k < f.len() ==> i <= #[trigger] f[k].0 < f[k].1 <= ts.len() + 1
            &&& forall|k: int| 0 <= k < f.len() - 1 ==> #[trigger] f[k].1 < f[k + 1].0
        }),
    decreases ts.len() - i,
{
    if i < ts.len() {
        lemma_statements(ts, i, doc);
        let (d, j) = p_statements(ts, i, doc);
        lemma_skip_comments(ts, j);
        let c = skip_comments(ts, j);
        if i <= j <= c < ts.len() {
            let s = next_stop(ts, c);
            lemma_next_stop(ts, c);
            if s + 2 < ts.len() {
                lemma_retry_ranges(ts, s + 2, d);
                let f = p_retry(ts, s + 2, d).1;
                let g = seq![(c, s + 1)] + f;
                assert forall|k: int| 0 <= k < g.len() implies i <= #[trigger] g[k].0 < g[k].1
                    <= ts.len() + 1 by {
                    if k > 0 {
                        assert(g[k] == f[k - 1]);
                    }
                }
                assert forall|k: int| 0 <= k < g.len() - 1 implies #[trigger] g[k].1 < g[k + 1].0 by {
                    assert(g[k + 1] == f[k]);
                    if k > 0 {
                        assert(g[k] == f[k - 1]);
                    }
                }
            }
        }
    }
}

/// Errors lie at or after where they were read, within the tokens (or
/// one past the last).
pub open spec fn errs_within(e: Seq<(int, int)>, lo: int, hi: int) -> bool {
    forall|k: int| 0 <= k < e.len() ==> lo <= #[trigger] e[k].0 <= e[k].1 <= hi
}

proof fn lemma_errs_concat(a: Seq<(int, int)>, b: Seq<(int, int)>, lo: int, hi: int)
    requires
        errs_within(a, lo, hi),
        errs_within(b, lo, hi),
    ensures
        errs_within(a + b, lo, hi),
{
    assert forall|k: int| 0 <= k < (a + b).len() implies lo <= #[trigger] (a + b)[k].0 <= (a
        + b)[k].1 <= hi by {
        if k >= a.len() {
            assert((a + b)[k] == b[k - a.len()]);
        } else {
            assert((a + b)[k] == a[k]);
        }
    }
}

pub proof fn lemma_rterm(ts: Toks, i: int, read: (Option<(TermV, Span)>, int))
    requires
        0 <= i <= ts.len(),
        i <= read.1 <= ts.len(),
        read.0 is Some ==> i < read.1,
    ensures
        i <= p_rterm(ts, i, read).1 <= ts.len(),
        errs_within(p_rterm(ts, i, read).2, i, ts.len() as int),
        read.0 is None && at_invalid(ts, i) ==> i < p_rterm(ts, i, read).1,
{
    lemma_skip_comments(ts, i);
}

pub proof fn lemma_rpo(ts: Toks, i: int)
    requires
        0 <= i <= ts.len(),
    ensures
        i <= p_rpo(ts, i).1 <= ts.len(),
        errs_within(p_rpo(ts, i).2, i, ts.len() as int),
{
    lemma_predicate(ts, i);
    lemma_rterm(ts, i, p_predicate(ts, i));
    let (predicate, j, e1) = p_rterm(ts, i, p_predicate(ts, i));
    lemma_object_list(ts, j);
    let (objs, k) = p_object_list(ts, j);
    lemma_skip_comments(ts, k);
    let m = skip_comments(ts, k);
    let e2 = if objs.len() == 0 {
        seq![(m, m)]
    } else {
        Seq::<(int, int)>::empty()
    };
    lemma_errs_concat(e1, e2, i, ts.len() as int);
}

pub proof fn lemma_rpos(ts: Toks, i: int)
    requires
        0 <= i <= ts.len(),
    ensures
        i <= p_rpos(ts, i).1 <= ts.len(),
        errs_within(p_rpos(ts, i).2, i, ts.len() as int),
    decreases ts.len() - i,
{
    lemma_rpo(ts, i);
    let (po, j, e) = p_rpo(ts, i);
    lemma_splits(ts, j);
    let (split, k) = p_splits(ts, j);
    if split && i < k <= ts.len() && po_follows(ts, k) {
        lemma_rpos(ts, k);
        let (rest, m, e2) = p_rpos(ts, k);
        assert(errs_within(e2, i, ts.len() as int));
        lemma_errs_concat(e, e2, i, ts.len() as int);
    }
}

pub proof fn lemma_rtriple(ts: Toks, i: int)
    requires
        0 <= i <= ts.len(),
    ensures
        i <= p_rtriple(ts, i).1 <= ts.len(),
        p_rtriple(ts, i).0 is Some ==> i < p_rtriple(ts, i).1,
        errs_within(p_rtriple(ts, i).2, i, ts.len() as int),
{
    lemma_subject(ts, i);
    let read = p_subject(ts, i);
    if !(read.0 is None && !at_invalid(ts, i)) {
        lemma_rterm(ts, i, read);
        let (subject, j, e0) = p_rterm(ts, i, read);
        lemma_rpos(ts, j);
        let (po, k, e1) = p_rpos(ts, j);
        lemma_token(ts, k, TokenV::Stop);
        lemma_skip_comments(ts, k);
        let km = skip_comments(ts, k);
        let e2 = if p_token(ts, k, TokenV::Stop).0 is Some {
            Seq::<(int, int)>::empty()
        } else {
            seq![(km, km)]
        };
        lemma_errs_concat(e0, e1, i, ts.len() as int);
        lemma_errs_concat(e0 + e1, e2, i, ts.len() as int);
    }
}

pub proof fn lemma_rstatement(ts: Toks, i: int, doc: TurtleV)
    requires
        0 <= i <= ts.len(),
    ensures
        moved(ts, i, p_rstatement(ts, i, doc)),
        p_rstatement(ts, i, doc).0 matches Some((_, e)) ==> errs_within(e, i, ts.len() as int),
{
    lemma_triple(ts, i);
    lemma_rtriple(ts, i);
    lemma_statement(ts, i, doc);
}

/// The errors recorded while recovering lie at or after where reading
/// started, each ending at most one past the last token (a skipped
/// statement with no `.` to end it).
pub proof fn lemma_recover_ranges(ts: Toks, i: int, doc: TurtleV)
    requires
        0 <= i <= ts.len(),
    ensures
        errs_within(p_recover(ts, i, doc).1, i, ts.len() as int + 1),
    decreases ts.len() - i,
{
    if i < ts.len() {
        lemma_rstatement(ts, i, doc);
        match p_rstatement(ts, i, doc) {
            (Some((d, e)), j) => {
                if i < j <= ts.len() {
                    lemma_recover_ranges(ts, j, d);
                    let f = p_recover(ts, j, d).1;
                    assert(errs_within(e, i, ts.len() as int + 1));
                    assert(errs_within(f, i, ts.len() as int + 1));
                    lemma_errs_concat(e, f, i, ts.len() as int + 1);
                }
            },
            (None, _) => {
                lemma_skip_comments(ts, i);
                let c = skip_comments(ts, i);
                if i <= c < ts.len() {
                    lemma_next_stop(ts, c);
                    let s = next_stop(ts, c);
                    if s + 1 < ts.len() {
                        lemma_recover_ranges(ts, s + 1, doc);
                        let f = p_recover(ts, s + 1, doc).1;
                        assert(errs_within(f, i, ts.len() as int + 1));
                        lemma_errs_concat(seq![(c, s + 1)], f, i, ts.len() as int + 1);
                    }
                }
            },
        }
    }
}


/// A boolean literal is read from one `true` or `false` token (after
/// comments), carries that token's span, and has the value of that token;
/// such a token always reads as that boolean, and a number token as a
/// numeric literal of its text.
pub proof fn lemma_boolean_literal(ts: Toks, i: int)
    ensures
        forall|b: bool, sp: Span|
            #[trigger] p_literal(ts, i).0 == Some((TermV::Literal(LiteralV::Boolean(b)), sp))
                ==> {
                let j = skip_comments(ts, i);
                &&& 0 <= j < ts.len()
                &&& ts[j].0 == (if b {
                    TokenV::True
                } else {
                    TokenV::False
                })
                &&& sp == ts[j].1
                &&& p_literal(ts, i).1 == j + 1
            },
        ({
            let j = skip_comments(ts, i);
            0 <= i < ts.len() && 0 <= j < ts.len() && (ts[j].0 == TokenV::True || ts[j].0
                == TokenV::False) ==> p_literal(ts, i).0 == Some(
                (TermV::Literal(LiteralV::Boolean(ts[j].0 == TokenV::True)), ts[j].1),
            )
        }),
        ({
            let j = skip_comments(ts, i);
            0 <= i < ts.len() && 0 <= j < ts.len() && ts[j].0 is Number ==> p_literal(ts, i) == (
                Some((TermV::Literal(LiteralV::Numeric(ts[j].0->Number_0)), ts[j].1)),
                j + 1,
            )
        }),
{
    if 0 <= i < ts.len() {
        lemma_skip_comments(ts, i);
        let j = skip_comments(ts, i);
        if j < ts.len() {
            match ts[j].0 {
                TokenV::Str(value, style) => {
                    assert(!(p_literal(ts, i).0 matches Some((TermV::Literal(LiteralV::Boolean(_)), _))));
                },
                _ => {},
            }
        }
    }
}


/// Reading a named node takes one token (after comments): an IRI token
/// gives the IRI as written, a prefixed-name token the prefix (empty where
/// none is written) and local part; any other token reads nothing.
pub proof fn lemma_named_node_reading(ts: Toks, i: int)
    requires
        0 <= i < ts.len(),
    ensures
        ({
            let j = skip_comments(ts, i);
            let (r, e) = p_named_node(ts, i);
            &&& j < ts.len() ==> (ts[j].0 matches TokenV::IRIRef(x) ==> r == Some(
                (TermV::NamedNode(NamedNodeV::Full(x)), ts[j].1),
            ) && e == j + 1)
            &&& j < ts.len() ==> (ts[j].0 matches TokenV::PNameLN(p, v) ==> r == Some(
                (
                    TermV::NamedNode(
                        NamedNodeV::Prefixed {
                            prefix: match p {
                                Some(q) => q,
                                None => Seq::empty(),
                            },
                            value: v,
                        },
                    ),
                    ts[j].1,
                ),
            ) && e == j + 1)
            &&& (j < ts.len() && !(ts[j].0 is IRIRef) && !(ts[j].0 is PNameLN)) ==> r is None
            &&& j >= ts.len() ==> r is None
        }),
        ({
            let j = skip_comments(ts, i);
            (j < ts.len() && ts[j].0 == TokenV::PredType) ==> p_predtype(ts, i) == (
                Some((TermV::NamedNode(NamedNodeV::A), ts[j].1)),
                j + 1,
            )
        }),
{
    lemma_skip_comments(ts, i);
}

/// A string token reads as a literal with its text and quotes; a language
/// tag right after it (comments aside) becomes the literal's language, and
/// where neither a tag nor `^^` follows, the literal has neither.
pub proof fn lemma_string_literal(ts: Toks, i: int)
    requires
        0 <= i < ts.len(),
    ensures
        ({
            let j = skip_comments(ts, i);
            let k = skip_comments(ts, j + 1);
            j < ts.len() ==> (ts[j].0 matches TokenV::Str(v, style) ==> {
                &&& k < ts.len() ==> (ts[k].0 matches TokenV::LangTag(tag) ==> p_literal(ts, i) == (
                    Some(
                        (
                            TermV::Literal(
                                LiteralV::RDF(
                                    RDFLiteralV {
                                        value: v,
                                        quote_style: style,
                                        lang: Some(tag),
                                        ty: None,
                                    },
                                ),
                            ),
                            tspan(ts, i, k + 1),
                        ),
                    ),
                    k + 1,
                ))
                &&& (k >= ts.len() || (!(ts[k].0 is LangTag) && !(ts[k].0 is DataTypeDelim)))
                    ==> p_literal(ts, i) == (
                    Some(
                        (
                            TermV::Literal(
                                LiteralV::RDF(
                                    RDFLiteralV { value: v, quote_style: style, lang: None, ty: None },
                                ),
                            ),
                            tspan(ts, i, k),
                        ),
                    ),
                    k,
                )
            })
        }),
{
    lemma_skip_comments(ts, i);
}

} // verus!
