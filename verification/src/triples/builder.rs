//! Deriving triples from a parsed document.
use super::spec::{
    b_collection, b_handle_po, b_ingest, b_objects, b_pos, b_predicate, b_statements, b_term,
    fresh, node_iri, simple_base, simple_triples, triples_base, BState, ErrV,
};
use super::{decimal_string, MyQuad, MyQuadV, MyTerm, MyTermV, TermKind, Triples, TriplesV};
use crate::iri::{check_base_iri, resolve_iri};
use crate::model::expand::{expand_spec, opt_str, strs_view};
use crate::model::{
    lemma_pos_view, lemma_terms_view, pos_view, seq_view, terms_view, BlankNode, NamedNode,
    NamedNodeV, Term, TermV, Triple, Turtle, TurtleV, PO, POV,
};
use crate::token::{Span, Spanned};
use vstd::prelude::*;
use vstd::string::StringExecFns;

verus! {

/// Why triples could not be derived from a document.
#[derive(Debug)]
pub enum TurtleSimpleError {
    Parse(sophia_iri::resolve::IriParseError),
    UnexpectedBase(&'static str),
    UnexpectedBaseString(String),
}

pub open spec fn err_view(e: TurtleSimpleError) -> ErrV {
    match e {
        TurtleSimpleError::Parse(_) => ErrV::Parse,
        TurtleSimpleError::UnexpectedBase(s) => ErrV::UnexpectedBase(s@),
        TurtleSimpleError::UnexpectedBaseString(s) => ErrV::UnexpectedBaseString(s@),
    }
}

pub open spec fn res_view<T: View>(r: Result<T, TurtleSimpleError>) -> Result<T::V, ErrV> {
    match r {
        Ok(t) => Ok(t@),
        Err(e) => Err(err_view(e)),
    }
}

pub open spec fn unit_view(r: Result<(), TurtleSimpleError>) -> Result<(), ErrV> {
    match r {
        Ok(_) => Ok(()),
        Err(e) => Err(err_view(e)),
    }
}

pub open spec fn quads_view(v: Seq<MyQuad>) -> Seq<MyQuadV> {
    v.map_values(|q: MyQuad| q@)
}

/// Collects the triples of the statements of a document, resolving IRIs
/// against `base` and numbering the blank nodes it makes.
pub struct TriplesBuilder<'a> {
    pub triples: Vec<MyQuad>,
    count: usize,
    base: String,
    based: &'a Turtle,
}

impl<'a> TriplesBuilder<'a> {
    pub closed spec fn state(&self) -> BState {
        BState { quads: quads_view(self.triples@), count: self.count as nat }
    }

    pub closed spec fn doc(&self) -> TurtleV {
        self.based@
    }

    pub closed spec fn base_iri(&self) -> Seq<char> {
        self.base@
    }

    /// A builder with no triples yet, for the document `based` and the base
    /// IRI `base`.
    pub fn new(based: &'a Turtle, base: String) -> (r: Self)
        ensures
            r.state() == (BState { quads: Seq::empty(), count: 0 }),
            r.doc() == based@,
            r.base_iri() == base@,
    {
        let r = TriplesBuilder { triples: Vec::new(), count: 0, base, based };
        assert(quads_view(r.triples@) =~= Seq::empty());
        r
    }

    fn push(&mut self, q: MyQuad)
        ensures
            final(self).state() == (BState { quads: old(self).state().quads.push(q@), ..old(self).state() }),
            final(self).doc() == old(self).doc(),
            final(self).base_iri() == old(self).base_iri(),
    {
        self.triples.push(q);
        assert(quads_view(self.triples@) =~= quads_view(old(self).triples@).push(q@));
    }

    /// A new blank node `internal_bnode_N`, N one past the last.
    fn fresh(&mut self, span: Span) -> (r: Result<MyTerm, TurtleSimpleError>)
        ensures
            final(self).doc() == old(self).doc(),
            final(self).base_iri() == old(self).base_iri(),
            match fresh(old(self).state(), span) {
                Ok((st, t)) => r matches Ok(x) && x@ == t && final(self).state() == st,
                Err(e) => r matches Err(x) && err_view(x) == e && final(self).state() == old(
                    self,
                ).state(),
            },
    {
        if self.count == usize::MAX {
            return Err(TurtleSimpleError::UnexpectedBase("Too many blank nodes"));
        }
        self.count = self.count + 1;
        let mut label = String::from_str("internal_bnode_");
        let n = decimal_string(self.count);
        label.append(n.as_str());
        Ok(MyTerm::blank_node(label.as_str(), span))
    }

    /// The IRI of a named node: expanded and resolved against the base.
    fn node_iri(&self, nn: &NamedNode) -> (r: Result<String, TurtleSimpleError>)
        ensures
            match node_iri(self.doc(), self.base_iri(), nn@) {
                Ok(x) => r matches Ok(s) && s@ == x,
                Err(e) => r matches Err(x) && err_view(x) == e,
            },
    {
        let done: Vec<String> = Vec::new();
        assert(strs_view(done@) =~= Seq::<Seq<char>>::empty());
        match nn.expand_step(self.based, done) {
            None => Err(TurtleSimpleError::UnexpectedBase("Expected valid named node for object")),
            Some(e) => match resolve_iri(self.base.as_str(), e.as_str()) {
                Ok(x) => Ok(x),
                Err(err) => Err(TurtleSimpleError::Parse(err)),
            },
        }
    }
}

impl<'a> TriplesBuilder<'a> {
    /// The triples of `subject` with the predicate-objects `pos`; where there
    /// are none, a placeholder triple.
    fn handle_po(&mut self, pos: &[Spanned<PO>], span: Span, subject: MyTerm) -> (r: Result<
        (),
        TurtleSimpleError,
    >)
        ensures
            final(self).doc() == old(self).doc(),
            final(self).base_iri() == old(self).base_iri(),
            (final(self).state(), unit_view(r)) == b_handle_po(
                old(self).doc(),
                old(self).base_iri(),
                old(self).state(),
                pos_view(pos@),
                span,
                subject@,
            ),
        decreases pos@,
    {
        let ghost d = self.doc();
        let ghost base = self.base_iri();
        let ghost pv = pos_view(pos@);
        proof {
            lemma_pos_view(pos@);
        }
        if pos.len() == 0 {
            let predicate = MyTerm::named_node("TestPredicate", Span { start: 0, end: 0 });
            let object = MyTerm::named_node("TestObject", Span { start: 0, end: 0 });
            self.push(MyQuad { subject: subject.duplicate(), predicate, object, span });
        }
        let ghost st0 = self.state();
        let mut i: usize = 0;
        while i < pos.len()
            invariant
                0 <= i <= pos.len(),
                pv == pos_view(pos@),
                pv == seq_view(pos@),
                d == self.doc(),
                base == self.base_iri(),
                d == old(self).doc(),
                base == old(self).base_iri(),
                b_handle_po(d, base, old(self).state(), pv, span, subject@) == b_pos(
                    d,
                    base,
                    st0,
                    pv,
                    0,
                    span,
                    subject@,
                ),
                b_pos(d, base, st0, pv, 0, span, subject@) == b_pos(
                    d,
                    base,
                    self.state(),
                    pv,
                    i as int,
                    span,
                    subject@,
                ),
            decreases pos.len() - i,
        {
            let p = &pos[i];
            let this_span = if i == 0 {
                span
            } else {
                p.1
            };
            let predicate = match p.0.predicate.0.named_node() {
                Some(n) => match self.node_iri(n) {
                    Ok(x) => MyTerm::named_node(x.as_str(), p.0.predicate.1),
                    Err(_) => MyTerm::invalid(p.0.predicate.1),
                },
                None => MyTerm::invalid(p.0.predicate.1),
            };
            let ghost objs = terms_view(p.0.object@);
            proof {
                lemma_terms_view(p.0.object@);
                assert(pv[i as int].0.object == objs);
                assert(b_predicate(d, base, pv[i as int].0.predicate) == predicate@);
            }
            let ghost st_i = self.state();
            let mut j: usize = 0;
            while j < p.0.object.len()
                invariant
                    0 <= j <= p.0.object.len(),
                    objs == terms_view(p.0.object@),
                    objs == seq_view(p.0.object@),
                    d == self.doc(),
                    base == self.base_iri(),
                    d == old(self).doc(),
                    base == old(self).base_iri(),
                    *p == pos@[i as int],
                    0 <= i < pos@.len(),
                    pv == pos_view(pos@),
                    pv == seq_view(pos@),
                    objs == pv[i as int].0.object,
                    this_span == (if i == 0 {
                        span
                    } else {
                        pv[i as int].1
                    }),
                    predicate@ == b_predicate(d, base, pv[i as int].0.predicate),
                    b_handle_po(d, base, old(self).state(), pv, span, subject@) == b_pos(
                        d,
                        base,
                        st_i,
                        pv,
                        i as int,
                        span,
                        subject@,
                    ),
                    b_objects(d, base, st_i, objs, 0, subject@, predicate@, this_span) == b_objects(
                        d,
                        base,
                        self.state(),
                        objs,
                        j as int,
                        subject@,
                        predicate@,
                        this_span,
                    ),
                decreases p.0.object.len() - j,
            {
                let o = &p.0.object[j];
                let qspan = if j == 0 {
                    this_span
                } else {
                    o.1
                };
                assert(decreases_to!(pos@ => pos@[i as int].0.object@[j as int].0)) by {
                    assert(0 <= i < pos@.len());
                    assert(0 <= j < pos@[i as int].0.object@.len());
                    assert(decreases_to!(pos@ => pos@[i as int]));
                    assert(decreases_to!(pos@[i as int] => pos@[i as int].0));
                    assert(decreases_to!(pos@[i as int].0 => pos@[i as int].0.object));
                    assert(decreases_to!(pos@[i as int].0.object => pos@[i as int].0.object@));
                    assert(decreases_to!(pos@[i as int].0.object@ => pos@[i as int].0.object@[j as int]));
                    assert(decreases_to!(pos@[i as int].0.object@[j as int] => pos@[i as int].0.object@[j as int].0));
                }
                let object = match self.term_to_my_term(&o.0, o.1) {
                    Ok(x) => x,
                    Err(e) => return Err(e),
                };
                self.push(
                    MyQuad {
                        subject: subject.duplicate(),
                        predicate: predicate.duplicate(),
                        object,
                        span: qspan,
                    },
                );
                j = j + 1;
            }
            i = i + 1;
        }
        Ok(())
    }

    /// The RDF term for `term`, read at `span`, with the triples of what is
    /// nested in it.
    fn term_to_my_term(&mut self, term: &Term, span: Span) -> (r: Result<
        MyTerm,
        TurtleSimpleError,
    >)
        ensures
            final(self).doc() == old(self).doc(),
            final(self).base_iri() == old(self).base_iri(),
            (final(self).state(), res_view(r)) == b_term(
                old(self).doc(),
                old(self).base_iri(),
                old(self).state(),
                term@,
                span,
            ),
        decreases term,
    {
        match term {
            Term::Variable(v) => Ok(MyTerm::variable(v.0.as_str(), span)),
            Term::NamedNode(NamedNode::Invalid) => Ok(MyTerm::invalid(span)),
            Term::NamedNode(nn) => match self.node_iri(nn) {
                Ok(x) => Ok(MyTerm::named_node(x.as_str(), span)),
                Err(e) => Err(e),
            },
            Term::Literal(l) => {
                let s = l.plain_string();
                Ok(MyTerm::literal(s.as_str(), span))
            },
            Term::BlankNode(BlankNode::Named(v)) => Ok(MyTerm::blank_node(v.as_str(), span)),
            Term::BlankNode(BlankNode::Unnamed(v)) => {
                let out = match self.fresh(span) {
                    Ok(x) => x,
                    Err(e) => return Err(e),
                };
                assert(decreases_to!(*term => v@)) by {
                    assert(decreases_to!(*term => (*term)->BlankNode_0));
                    assert(decreases_to!((*term)->BlankNode_0 => ((*term)->BlankNode_0)->Unnamed_0));
                    assert(decreases_to!(*v => v@));
                }
                match self.handle_po(v.as_slice(), span, out.duplicate()) {
                    Ok(_) => Ok(out),
                    Err(e) => Err(e),
                }
            },
            Term::BlankNode(BlankNode::Invalid) => Err(
                TurtleSimpleError::UnexpectedBase("Unexpected invalid blank for object"),
            ),
            Term::Collection(terms) => {
                assert(decreases_to!(*term => terms@)) by {
                    assert(decreases_to!(*term => (*term)->Collection_0));
                    assert(decreases_to!(*terms => terms@));
                }
                self.handle_collection(terms.as_slice(), span)
            },
            Term::Invalid => Ok(MyTerm::invalid(span)),
        }
    }

    /// The elements of a collection, from the last to the first, each a
    /// blank node linked by `rdf:first` and `rdf:rest`; gives the head.
    fn handle_collection(&mut self, collection: &[Spanned<Term>], span: Span) -> (r: Result<
        MyTerm,
        TurtleSimpleError,
    >)
        ensures
            final(self).doc() == old(self).doc(),
            final(self).base_iri() == old(self).base_iri(),
            (final(self).state(), res_view(r)) == b_collection(
                old(self).doc(),
                old(self).base_iri(),
                old(self).state(),
                terms_view(collection@),
                span,
                MyTermV {
                    value: crate::triples::spec::rdf_nil(),
                    ty: TermKind::NamedNode,
                    span: crate::triples::spec::empty_span(span.end),
                },
            ),
        decreases collection@,
    {
        let ghost d = self.doc();
        let ghost base = self.base_iri();
        let ghost tv = terms_view(collection@);
        proof {
            lemma_terms_view(collection@);
        }
        let mut prev = MyTerm::named_node(
            "http://www.w3.org/1999/02/22-rdf-syntax-ns#nil",
            Span { start: span.end, end: span.end },
        );
        let ghost st0 = self.state();
        let ghost prev0 = prev@;
        let mut k: usize = collection.len();
        assert(tv.take(k as int) =~= tv);
        while k > 0
            invariant
                0 <= k <= collection.len(),
                tv == terms_view(collection@),
                tv == seq_view(collection@),
                d == self.doc(),
                base == self.base_iri(),
                d == old(self).doc(),
                base == old(self).base_iri(),
                st0 == old(self).state(),
                prev0 == (MyTermV {
                    value: crate::triples::spec::rdf_nil(),
                    ty: TermKind::NamedNode,
                    span: crate::triples::spec::empty_span(span.end),
                }),
                b_collection(d, base, st0, tv, span, prev0) == b_collection(
                    d,
                    base,
                    self.state(),
                    tv.take(k as int),
                    span,
                    prev@,
                ),
            decreases k,
        {
            k = k - 1;
            proof {
                assert(tv.take(k + 1).last() == tv[k as int]);
                assert(tv.take(k + 1).drop_last() =~= tv.take(k as int));
            }
            let s = collection[k].1;
            let next = match self.fresh(s) {
                Ok(x) => x,
                Err(e) => return Err(e),
            };
            assert(decreases_to!(collection@ => collection@[k as int].0)) by {
                assert(decreases_to!(collection@ => collection@[k as int]));
                assert(decreases_to!(collection@[k as int] => collection@[k as int].0));
            }
            let object = match self.term_to_my_term(&collection[k].0, s) {
                Ok(x) => x,
                Err(e) => return Err(e),
            };
            let q1 = MyQuad {
                subject: next.duplicate(),
                predicate: MyTerm::named_node(
                    "http://www.w3.org/1999/02/22-rdf-syntax-ns#first",
                    Span { start: prev.span.start, end: prev.span.start },
                ),
                object,
                span,
            };
            self.push(q1);
            let q2 = MyQuad {
                subject: next.duplicate(),
                predicate: MyTerm::named_node(
                    "http://www.w3.org/1999/02/22-rdf-syntax-ns#rest",
                    Span { start: s.start, end: s.start },
                ),
                object: prev,
                span: s,
            };
            self.push(q2);
            prev = next;
        }
        proof {
            assert(tv.take(0) =~= Seq::<(TermV, Span)>::empty());
        }
        Ok(prev)
    }
}

impl<'a> TriplesBuilder<'a> {
    /// Adds the triples of one statement of the document.
    pub fn ingest(&mut self, t: &Spanned<Triple>) -> (r: Result<(), TurtleSimpleError>)
        ensures
            final(self).doc() == old(self).doc(),
            final(self).base_iri() == old(self).base_iri(),
            (final(self).state(), unit_view(r)) == b_ingest(
                old(self).doc(),
                old(self).base_iri(),
                old(self).state(),
                t.0@,
                t.1,
            ),
    {
        let triple = &t.0;
        let sspan = triple.subject.1;
        proof {
            lemma_pos_view(triple.po@);
        }
        let sub = match &triple.subject.0 {
            Term::BlankNode(BlankNode::Named(vs)) => MyTerm::blank_node(vs.as_str(), sspan),
            Term::BlankNode(BlankNode::Unnamed(vs)) => {
                let out = match self.fresh(sspan) {
                    Ok(x) => x,
                    Err(e) => return Err(e),
                };
                match self.handle_po(vs.as_slice(), sspan, out.duplicate()) {
                    Ok(_) => out,
                    Err(e) => return Err(e),
                }
            },
            Term::NamedNode(NamedNode::Invalid) => MyTerm::invalid(sspan),
            Term::NamedNode(nn) => match self.node_iri(nn) {
                Ok(x) => MyTerm::named_node(x.as_str(), sspan),
                Err(e) => return Err(e),
            },
            Term::Invalid => MyTerm::invalid(sspan),
            Term::Variable(v) => MyTerm::variable(v.0.as_str(), sspan),
            x => {
                let mut msg = String::from_str("Unexpected ");
                msg.append(x.ty());
                return Err(TurtleSimpleError::UnexpectedBaseString(msg));
            },
        };
        self.handle_po(triple.po.as_slice(), t.1, sub)
    }
}

impl Turtle {
    /// The triples of the document with its base term and location.
    pub fn into_triples(&self, triples: Vec<MyQuad>) -> (r: Triples)
        ensures
            r@ == (TriplesV {
                triples: quads_view(triples@),
                base: triples_base(self@),
                base_url: self@.set_base,
            }),
    {
        let base = match &self.base {
            Some(b) => {
                let done: Vec<String> = Vec::new();
                assert(strs_view(done@) =~= Seq::<Seq<char>>::empty());
                match b.0.1.0.expand_step(self, done) {
                    Some(st) => Some(MyTerm::named_node(st.as_str(), b.0.1.1)),
                    None => None,
                }
            },
            None => Some(MyTerm::named_node(self.set_base.as_str(), Span { start: 0, end: 0 })),
        };
        Triples { triples, base, base_url: self.set_base.clone() }
    }

    /// The triples the document states, IRIs resolved against its base
    /// declaration (or else its location), nested predicate-object lists and
    /// collections as numbered blank nodes.
    pub fn get_simple_triples(&self) -> (r: Result<Triples, TurtleSimpleError>)
        ensures
            res_view(r) == simple_triples(self@),
    {
        let base = match &self.base {
            Some(b) => {
                let done: Vec<String> = Vec::new();
                assert(strs_view(done@) =~= Seq::<Seq<char>>::empty());
                let nn = match b.0.1.0.expand_step(self, done) {
                    Some(x) => x,
                    None => return Err(
                        TurtleSimpleError::UnexpectedBase("Expected valid named node base"),
                    ),
                };
                match check_base_iri(nn.as_str()) {
                    Ok(_) => nn,
                    Err(e) => return Err(TurtleSimpleError::Parse(e)),
                }
            },
            None => match check_base_iri(self.set_base.as_str()) {
                Ok(_) => self.set_base.clone(),
                Err(e) => return Err(TurtleSimpleError::Parse(e)),
            },
        };
        assert(simple_base(self@) == Ok::<Seq<char>, ErrV>(base@));
        let mut builder = TriplesBuilder::new(self, base);
        let ghost st0 = builder.state();
        let mut i: usize = 0;
        while i < self.triples.len()
            invariant
                0 <= i <= self.triples.len(),
                builder.doc() == self@,
                builder.base_iri() == simple_base(self@)->Ok_0,
                simple_base(self@) is Ok,
                b_statements(self@, builder.base_iri(), st0, 0) == b_statements(
                    self@,
                    builder.base_iri(),
                    builder.state(),
                    i as int,
                ),
                st0 == (BState { quads: Seq::empty(), count: 0 }),
            decreases self.triples.len() - i,
        {
            match builder.ingest(&self.triples[i]) {
                Ok(_) => {},
                Err(e) => return Err(e),
            }
            i = i + 1;
        }
        let r = self.into_triples(builder.triples);
        Ok(r)
    }
}

} // verus!
