//! What deriving triples from a document computes, over the views.
use super::{decimal, term_v, MyQuadV, MyTermV, TermKind, TriplesV};
use crate::iri::{iri_resolve, is_base_iri};
use crate::model::expand::expand_spec;
use crate::model::render::bool_text;
use crate::model::{
    term_kind_name, BlankNodeV, LiteralV, NamedNodeV, POV, TermV, TripleV, TurtleV,
};
use crate::token::Span;
use vstd::prelude::*;

verus! {

/// Why triples could not be derived.
pub enum ErrV {
    Parse,
    UnexpectedBase(Seq<char>),
    UnexpectedBaseString(Seq<char>),
}

/// The triples derived so far and the number of blank nodes made.
pub struct BState {
    pub quads: Seq<MyQuadV>,
    pub count: nat,
}

pub open spec fn rdf_first() -> Seq<char> {
    "http://www.w3.org/1999/02/22-rdf-syntax-ns#first"@
}

pub open spec fn rdf_rest() -> Seq<char> {
    "http://www.w3.org/1999/02/22-rdf-syntax-ns#rest"@
}

pub open spec fn rdf_nil() -> Seq<char> {
    "http://www.w3.org/1999/02/22-rdf-syntax-ns#nil"@
}

pub open spec fn empty_span(at: usize) -> Span {
    Span { start: at, end: at }
}

pub open spec fn quad_v(s: MyTermV, p: MyTermV, o: MyTermV, span: Span) -> MyQuadV {
    MyQuadV { subject: s, predicate: p, object: o, span }
}

pub open spec fn push_quad(st: BState, q: MyQuadV) -> BState {
    BState { quads: st.quads.push(q), count: st.count }
}

/// The label of the `k`-th blank node made.
pub open spec fn bnode_label(k: nat) -> Seq<char> {
    "internal_bnode_"@ + decimal(k)
}

/// A new blank node, numbered one past the last; the counter is a `usize`.
pub open spec fn fresh(st: BState, span: Span) -> Result<(BState, MyTermV), ErrV> {
    if st.count < usize::MAX {
        Ok(
            (
                BState { quads: st.quads, count: st.count + 1 },
                term_v(bnode_label(st.count + 1), TermKind::BlankNode, span),
            ),
        )
    } else {
        Err(ErrV::UnexpectedBase("Too many blank nodes"@))
    }
}

/// The IRI of a named node: expanded through the document's prefixes and
/// resolved against `base`.
pub open spec fn node_iri(d: TurtleV, base: Seq<char>, n: NamedNodeV) -> Result<Seq<char>, ErrV> {
    match expand_spec(n, d.prefixes, Seq::empty()) {
        None => Err(ErrV::UnexpectedBase("Expected valid named node for object"@)),
        Some(e) => match iri_resolve(base, e) {
            Some(x) => Ok(x),
            None => Err(ErrV::Parse),
        },
    }
}

pub open spec fn literal_plain(l: LiteralV) -> Seq<char> {
    match l {
        LiteralV::RDF(x) => x.value,
        LiteralV::Boolean(b) => bool_text(b),
        LiteralV::Numeric(x) => x,
    }
}

/// The RDF term for a term of the document, with the triples that its
/// nested lists and collections give.
pub open spec fn b_term(d: TurtleV, base: Seq<char>, st: BState, t: TermV, span: Span) -> (
    BState,
    Result<MyTermV, ErrV>,
)
    decreases t, 0int,
{
    match t {
        TermV::Variable(v) => (st, Ok(term_v(v, TermKind::Variable, span))),
        TermV::NamedNode(n) => if n is Invalid {
            (st, Ok(term_v(Seq::empty(), TermKind::Invalid, span)))
        } else {
            match node_iri(d, base, n) {
                Ok(x) => (st, Ok(term_v(x, TermKind::NamedNode, span))),
                Err(e) => (st, Err(e)),
            }
        },
        TermV::Literal(l) => (st, Ok(term_v(literal_plain(l), TermKind::Literal, span))),
        TermV::BlankNode(b) => match b {
            BlankNodeV::Named(v) => (st, Ok(term_v(v, TermKind::BlankNode, span))),
            BlankNodeV::Unnamed(pos) => match fresh(st, span) {
                Ok((st1, out)) => {
                    let (st2, r) = b_handle_po(d, base, st1, pos, span, out);
                    match r {
                        Ok(_) => (st2, Ok(out)),
                        Err(e) => (st2, Err(e)),
                    }
                },
                Err(e) => (st, Err(e)),
            },
            BlankNodeV::Invalid => (st, Err(ErrV::UnexpectedBase("Unexpected invalid blank for object"@))),
        },
        TermV::Collection(ts) => b_collection(
            d,
            base,
            st,
            ts,
            span,
            term_v(rdf_nil(), TermKind::NamedNode, empty_span(span.end)),
        ),
        TermV::Invalid => (st, Ok(term_v(Seq::empty(), TermKind::Invalid, span))),
    }
}

/// The elements of a collection, from the last to the first, each a blank
/// node linked to the rest by `rdf:first` and `rdf:rest`; `prev` is the
/// rest after the elements still to do.
pub open spec fn b_collection(
    d: TurtleV,
    base: Seq<char>,
    st: BState,
    ts: Seq<(TermV, Span)>,
    span: Span,
    prev: MyTermV,
) -> (BState, Result<MyTermV, ErrV>)
    decreases ts, 0int,
{
    if ts.len() == 0 {
        (st, Ok(prev))
    } else {
        let (term, s) = ts.last();
        match fresh(st, s) {
            Err(e) => (st, Err(e)),
            Ok((st1, next)) => {
                let (st2, r) = b_term(d, base, st1, term, s);
                match r {
                    Err(e) => (st2, Err(e)),
                    Ok(obj) => {
                        let q1 = quad_v(
                            next,
                            term_v(rdf_first(), TermKind::NamedNode, empty_span(prev.span.start)),
                            obj,
                            span,
                        );
                        let q2 = quad_v(
                            next,
                            term_v(rdf_rest(), TermKind::NamedNode, empty_span(s.start)),
                            prev,
                            s,
                        );
                        b_collection(
                            d,
                            base,
                            push_quad(push_quad(st2, q1), q2),
                            ts.drop_last(),
                            span,
                            next,
                        )
                    },
                }
            },
        }
    }
}

/// The triples of `subject` with the predicate-objects `pos`: a
/// placeholder triple where there are none.
pub open spec fn b_handle_po(
    d: TurtleV,
    base: Seq<char>,
    st: BState,
    pos: Seq<(POV, Span)>,
    span: Span,
    subject: MyTermV,
) -> (BState, Result<(), ErrV>)
    decreases pos, pos.len() + 1,
{
    let st0 = if pos.len() == 0 {
        push_quad(
            st,
            quad_v(
                subject,
                term_v("TestPredicate"@, TermKind::NamedNode, empty_span(0)),
                term_v("TestObject"@, TermKind::NamedNode, empty_span(0)),
                span,
            ),
        )
    } else {
        st
    };
    b_pos(d, base, st0, pos, 0, span, subject)
}

/// The predicate of a predicate-object: its IRI, or an invalid term.
pub open spec fn b_predicate(d: TurtleV, base: Seq<char>, p: (TermV, Span)) -> MyTermV {
    match p.0 {
        TermV::NamedNode(n) => match node_iri(d, base, n) {
            Ok(x) => term_v(x, TermKind::NamedNode, p.1),
            Err(_) => term_v(Seq::empty(), TermKind::Invalid, p.1),
        },
        _ => term_v(Seq::empty(), TermKind::Invalid, p.1),
    }
}

/// The predicate-objects from the `i`-th on; the first triple of the first
/// one gets the range `span`.
pub open spec fn b_pos(
    d: TurtleV,
    base: Seq<char>,
    st: BState,
    pos: Seq<(POV, Span)>,
    i: int,
    span: Span,
    subject: MyTermV,
) -> (BState, Result<(), ErrV>)
    decreases pos, pos.len() - i,
{
    if !(0 <= i < pos.len()) {
        (st, Ok(()))
    } else {
        let (p, span2) = pos[i];
        let this_span = if i == 0 {
            span
        } else {
            span2
        };
        let predicate = b_predicate(d, base, p.predicate);
        let (st1, r) = b_objects(d, base, st, p.object, 0, subject, predicate, this_span);
        match r {
            Err(e) => (st1, Err(e)),
            Ok(_) => b_pos(d, base, st1, pos, i + 1, span, subject),
        }
    }
}

/// The objects from the `j`-th on, each a triple; the first gets the range
/// `this_span`, the others their own.
pub open spec fn b_objects(
    d: TurtleV,
    base: Seq<char>,
    st: BState,
    objs: Seq<(TermV, Span)>,
    j: int,
    subject: MyTermV,
    predicate: MyTermV,
    this_span: Span,
) -> (BState, Result<(), ErrV>)
    decreases objs, objs.len() - j,
{
    if !(0 <= j < objs.len()) {
        (st, Ok(()))
    } else {
        let (o, ospan) = objs[j];
        let qspan = if j == 0 {
            this_span
        } else {
            ospan
        };
        let (st1, r) = b_term(d, base, st, o, ospan);
        match r {
            Err(e) => (st1, Err(e)),
            Ok(obj) => b_objects(
                d,
                base,
                push_quad(st1, quad_v(subject, predicate, obj, qspan)),
                objs,
                j + 1,
                subject,
                predicate,
                this_span,
            ),
        }
    }
}

/// The triples of one statement of the document.
pub open spec fn b_ingest(d: TurtleV, base: Seq<char>, st: BState, t: TripleV, span: Span) -> (
    BState,
    Result<(), ErrV>,
) {
    let (subj, sspan) = t.subject;
    let (st1, sub) = match subj {
        TermV::BlankNode(BlankNodeV::Named(vs)) => (st, Ok(term_v(vs, TermKind::BlankNode, sspan))),
        TermV::BlankNode(BlankNodeV::Unnamed(vs)) => match fresh(st, sspan) {
            Ok((s1, out)) => {
                let (s2, r) = b_handle_po(d, base, s1, vs, sspan, out);
                (
                    s2,
                    match r {
                        Ok(_) => Ok(out),
                        Err(e) => Err(e),
                    },
                )
            },
            Err(e) => (st, Err(e)),
        },
        TermV::NamedNode(NamedNodeV::Invalid) => (
            st,
            Ok(term_v(Seq::empty(), TermKind::Invalid, sspan)),
        ),
        TermV::NamedNode(n) => (
            st,
            match node_iri(d, base, n) {
                Ok(x) => Ok(term_v(x, TermKind::NamedNode, sspan)),
                Err(e) => Err(e),
            },
        ),
        TermV::Invalid => (st, Ok(term_v(Seq::empty(), TermKind::Invalid, sspan))),
        TermV::Variable(v) => (st, Ok(term_v(v, TermKind::Variable, sspan))),
        _ => (st, Err(ErrV::UnexpectedBaseString("Unexpected "@ + term_kind_name(subj)))),
    };
    match sub {
        Err(e) => (st1, Err(e)),
        Ok(s) => b_handle_po(d, base, st1, t.po, span, s),
    }
}

/// The statements from the `i`-th on.
pub open spec fn b_statements(d: TurtleV, base: Seq<char>, st: BState, i: int) -> (
    BState,
    Result<(), ErrV>,
)
    decreases d.triples.len() - i,
{
    if !(0 <= i < d.triples.len()) {
        (st, Ok(()))
    } else {
        let (r_st, r) = b_ingest(d, base, st, d.triples[i].0, d.triples[i].1);
        match r {
            Err(e) => (r_st, Err(e)),
            Ok(_) => b_statements(d, base, r_st, i + 1),
        }
    }
}

/// The base IRI that a document's IRIs are resolved against: its base
/// declaration, expanded, or else its location.
pub open spec fn simple_base(d: TurtleV) -> Result<Seq<char>, ErrV> {
    match d.base {
        Some((b, _)) => match expand_spec(b.1.0, d.prefixes, Seq::empty()) {
            None => Err(ErrV::UnexpectedBase("Expected valid named node base"@)),
            Some(nn) => if is_base_iri(nn) {
                Ok(nn)
            } else {
                Err(ErrV::Parse)
            },
        },
        None => if is_base_iri(d.set_base) {
            Ok(d.set_base)
        } else {
            Err(ErrV::Parse)
        },
    }
}

/// The document's base as a term: the expanded base declaration, or the
/// location.
pub open spec fn triples_base(d: TurtleV) -> Option<MyTermV> {
    match d.base {
        Some((b, _)) => match expand_spec(b.1.0, d.prefixes, Seq::empty()) {
            Some(x) => Some(term_v(x, TermKind::NamedNode, b.1.1)),
            None => None,
        },
        None => Some(term_v(d.set_base, TermKind::NamedNode, empty_span(0))),
    }
}

/// The triples of a document.
pub open spec fn simple_triples(d: TurtleV) -> Result<TriplesV, ErrV> {
    match simple_base(d) {
        Err(e) => Err(e),
        Ok(base) => {
            let (st, r) = b_statements(d, base, BState { quads: Seq::empty(), count: 0 }, 0);
            match r {
                Err(e) => Err(e),
                Ok(_) => Ok(TriplesV { triples: st.quads, base: triples_base(d), base_url: d.set_base }),
            }
        },
    }
}

} // verus!

verus! {

/// A term that can stand as a subject: anything but a literal.
pub open spec fn subject_ok(t: MyTermV) -> bool {
    t.ty != TermKind::Literal
}

/// A term that can stand as a predicate: a named node, or an invalid term.
pub open spec fn predicate_ok(t: MyTermV) -> bool {
    t.ty == TermKind::NamedNode || t.ty == TermKind::Invalid
}

pub open spec fn quad_ok(q: MyQuadV) -> bool {
    subject_ok(q.subject) && predicate_ok(q.predicate)
}

pub open spec fn quads_ok(qs: Seq<MyQuadV>) -> bool {
    forall|i: int| 0 <= i < qs.len() ==> quad_ok(#[trigger] qs[i])
}

proof fn lemma_push_ok(st: BState, q: MyQuadV)
    requires
        quads_ok(st.quads),
        quad_ok(q),
    ensures
        quads_ok(push_quad(st, q).quads),
{
    let qs = push_quad(st, q).quads;
    assert forall|i: int| 0 <= i < qs.len() implies quad_ok(#[trigger] qs[i]) by {
        if i < st.quads.len() {
            assert(qs[i] == st.quads[i]);
        }
    }
}

proof fn lemma_term_ok(d: TurtleV, base: Seq<char>, st: BState, t: TermV, span: Span)
    requires
        quads_ok(st.quads),
    ensures
        quads_ok(b_term(d, base, st, t, span).0.quads),
    decreases t, 0int,
{
    match t {
        TermV::BlankNode(BlankNodeV::Unnamed(pos)) => match fresh(st, span) {
            Ok((st1, out)) => lemma_handle_po_ok(d, base, st1, pos, span, out),
            Err(_) => {},
        },
        TermV::Collection(ts) => lemma_collection_ok(
            d,
            base,
            st,
            ts,
            span,
            term_v(rdf_nil(), TermKind::NamedNode, empty_span(span.end)),
        ),
        _ => {},
    }
}

proof fn lemma_collection_ok(
    d: TurtleV,
    base: Seq<char>,
    st: BState,
    ts: Seq<(TermV, Span)>,
    span: Span,
    prev: MyTermV,
)
    requires
        quads_ok(st.quads),
    ensures
        quads_ok(b_collection(d, base, st, ts, span, prev).0.quads),
    decreases ts, 0int,
{
    if ts.len() > 0 {
        let (term, s) = ts.last();
        match fresh(st, s) {
            Err(_) => {},
            Ok((st1, next)) => {
                lemma_term_ok(d, base, st1, term, s);
                let (st2, r) = b_term(d, base, st1, term, s);
                match r {
                    Err(_) => {},
                    Ok(obj) => {
                        let q1 = quad_v(
                            next,
                            term_v(rdf_first(), TermKind::NamedNode, empty_span(prev.span.start)),
                            obj,
                            span,
                        );
                        let q2 = quad_v(
                            next,
                            term_v(rdf_rest(), TermKind::NamedNode, empty_span(s.start)),
                            prev,
                            s,
                        );
                        lemma_push_ok(st2, q1);
                        lemma_push_ok(push_quad(st2, q1), q2);
                        lemma_collection_ok(
                            d,
                            base,
                            push_quad(push_quad(st2, q1), q2),
                            ts.drop_last(),
                            span,
                            next,
                        );
                    },
                }
            },
        }
    }
}

proof fn lemma_handle_po_ok(
    d: TurtleV,
    base: Seq<char>,
    st: BState,
    pos: Seq<(POV, Span)>,
    span: Span,
    subject: MyTermV,
)
    requires
        quads_ok(st.quads),
        subject_ok(subject),
    ensures
        quads_ok(b_handle_po(d, base, st, pos, span, subject).0.quads),
    decreases pos, pos.len() + 1,
{
    let st0 = if pos.len() == 0 {
        let q = quad_v(
            subject,
            term_v("TestPredicate"@, TermKind::NamedNode, empty_span(0)),
            term_v("TestObject"@, TermKind::NamedNode, empty_span(0)),
            span,
        );
        lemma_push_ok(st, q);
        push_quad(st, q)
    } else {
        st
    };
    lemma_pos_ok(d, base, st0, pos, 0, span, subject);
}

proof fn lemma_pos_ok(
    d: TurtleV,
    base: Seq<char>,
    st: BState,
    pos: Seq<(POV, Span)>,
    i: int,
    span: Span,
    subject: MyTermV,
)
    requires
        quads_ok(st.quads),
        subject_ok(subject),
    ensures
        quads_ok(b_pos(d, base, st, pos, i, span, subject).0.quads),
    decreases pos, pos.len() - i,
{
    if 0 <= i < pos.len() {
        let (p, span2) = pos[i];
        let this_span = if i == 0 {
            span
        } else {
            span2
        };
        let predicate = b_predicate(d, base, p.predicate);
        lemma_objects_ok(d, base, st, p.object, 0, subject, predicate, this_span);
        let (st1, r) = b_objects(d, base, st, p.object, 0, subject, predicate, this_span);
        if r is Ok {
            lemma_pos_ok(d, base, st1, pos, i + 1, span, subject);
        }
    }
}

proof fn lemma_objects_ok(
    d: TurtleV,
    base: Seq<char>,
    st: BState,
    objs: Seq<(TermV, Span)>,
    j: int,
    subject: MyTermV,
    predicate: MyTermV,
    this_span: Span,
)
    requires
        quads_ok(st.quads),
        subject_ok(subject),
        predicate_ok(predicate),
    ensures
        quads_ok(b_objects(d, base, st, objs, j, subject, predicate, this_span).0.quads),
    decreases objs, objs.len() - j,
{
    if 0 <= j < objs.len() {
        let (o, ospan) = objs[j];
        let qspan = if j == 0 {
            this_span
        } else {
            ospan
        };
        lemma_term_ok(d, base, st, o, ospan);
        let (st1, r) = b_term(d, base, st, o, ospan);
        match r {
            Err(_) => {},
            Ok(obj) => {
                lemma_push_ok(st1, quad_v(subject, predicate, obj, qspan));
                lemma_objects_ok(
                    d,
                    base,
                    push_quad(st1, quad_v(subject, predicate, obj, qspan)),
                    objs,
                    j + 1,
                    subject,
                    predicate,
                    this_span,
                );
            },
        }
    }
}

proof fn lemma_statements_ok(d: TurtleV, base: Seq<char>, st: BState, i: int)
    requires
        quads_ok(st.quads),
    ensures
        quads_ok(b_statements(d, base, st, i).0.quads),
    decreases d.triples.len() - i,
{
    if 0 <= i < d.triples.len() {
        let t = d.triples[i].0;
        let span = d.triples[i].1;
        let (subj, sspan) = t.subject;
        match subj {
            TermV::BlankNode(BlankNodeV::Unnamed(vs)) => match fresh(st, sspan) {
                Ok((s1, out)) => {
                    lemma_handle_po_ok(d, base, s1, vs, sspan, out);
                    let (s2, r) = b_handle_po(d, base, s1, vs, sspan, out);
                    if r is Ok {
                        lemma_handle_po_ok(d, base, s2, t.po, span, out);
                    }
                },
                Err(_) => {},
            },
            _ => {
                let (st1, sub) = match subj {
                    TermV::BlankNode(BlankNodeV::Named(vs)) => (
                        st,
                        Ok::<MyTermV, ErrV>(term_v(vs, TermKind::BlankNode, sspan)),
                    ),
                    TermV::NamedNode(NamedNodeV::Invalid) => (
                        st,
                        Ok(term_v(Seq::empty(), TermKind::Invalid, sspan)),
                    ),
                    TermV::NamedNode(n) => (
                        st,
                        match node_iri(d, base, n) {
                            Ok(x) => Ok(term_v(x, TermKind::NamedNode, sspan)),
                            Err(e) => Err(e),
                        },
                    ),
                    TermV::Invalid => (st, Ok(term_v(Seq::empty(), TermKind::Invalid, sspan))),
                    TermV::Variable(v) => (st, Ok(term_v(v, TermKind::Variable, sspan))),
                    _ => (st, Err(ErrV::Parse)),
                };
                if let Ok(s) = sub {
                    lemma_handle_po_ok(d, base, st1, t.po, span, s);
                }
            },
        }
        let (r_st, r) = b_ingest(d, base, st, t, span);
        if r is Ok {
            lemma_statements_ok(d, base, r_st, i + 1);
        }
    }
}

/// No triple derived from a document has a literal as its subject, and
/// every predicate is a named node (or an invalid term, where the predicate
/// could not be expanded).
pub proof fn lemma_simple_triples_well_formed(d: TurtleV)
    ensures
        simple_triples(d) matches Ok(t) ==> forall|i: int|
            0 <= i < t.triples.len() ==> subject_ok(#[trigger] t.triples[i].subject)
                && predicate_ok(t.triples[i].predicate),
{
    if let Ok(base) = simple_base(d) {
        let st0 = BState { quads: Seq::empty(), count: 0 };
        lemma_statements_ok(d, base, st0, 0);
        let (st, r) = b_statements(d, base, st0, 0);
        assert(quads_ok(st.quads));
        if r is Ok {
            assert forall|i: int| 0 <= i < st.quads.len() implies subject_ok(
                #[trigger] st.quads[i].subject,
            ) && predicate_ok(st.quads[i].predicate) by {
                assert(quad_ok(st.quads[i]));
            }
        }
    }
}


/// Each derived term has the kind of the document's term it comes from, at
/// that term's span: a labelled blank node stays a blank node with its label
/// (adding no triples), a literal becomes a literal of its plain text, a
/// variable a variable, a named node an IRI (or an invalid term for an
/// invalid one), and an anonymous blank node a fresh blank node.
pub proof fn lemma_term_kinds(d: TurtleV, base: Seq<char>, st: BState, t: TermV, span: Span)
    ensures
        ({
            let (st2, r) = b_term(d, base, st, t, span);
            &&& (t matches TermV::BlankNode(BlankNodeV::Named(v)) ==> r == Ok::<MyTermV, ErrV>(
                term_v(v, TermKind::BlankNode, span),
            ) && st2 == st)
            &&& (t matches TermV::Literal(l) ==> r == Ok::<MyTermV, ErrV>(
                term_v(literal_plain(l), TermKind::Literal, span),
            ))
            &&& (t matches TermV::Variable(v) ==> r == Ok::<MyTermV, ErrV>(
                term_v(v, TermKind::Variable, span),
            ))
            &&& (t matches TermV::NamedNode(n) ==> (r matches Ok(x) ==> x.span == span && (if n
                is Invalid {
                x.ty == TermKind::Invalid
            } else {
                x.ty == TermKind::NamedNode
            })))
            &&& (t matches TermV::BlankNode(BlankNodeV::Unnamed(_)) ==> (r matches Ok(x) ==> x.ty
                == TermKind::BlankNode && x.span == span))
        }),
{
}

} // verus!
