//! Mirroring of source ranges, for documents read from reversed text.
use super::{
    lemma_pos_view, lemma_terms_view, pos_view, seq_view, terms_view, Base, BaseV, BlankNode,
    BlankNodeV, Prefix, PrefixV, Term, TermV, Triple, TripleV, Turtle, TurtleV, PO, POV,
};
use crate::token::{Span, Spanned};
use vstd::prelude::*;

verus! {

/// `start..end` seen from the end of a text of length `len`.
pub open spec fn rev_span(s: Span, len: int) -> Span {
    Span { start: (len - s.end) as usize, end: (len - s.start) as usize }
}

/// Both ends of `s` lie within a text of length `len`.
pub open spec fn span_within(s: Span, len: int) -> bool {
    s.start <= len && s.end <= len
}

/// The range `range` seen from the end of a text of length `len`.
pub fn rev_range(range: &Span, len: usize) -> (r: Span)
    requires
        span_within(*range, len as int),
    ensures
        r == rev_span(*range, len as int),
{
    Span { start: len - range.end, end: len - range.start }
}

/// Mirroring a range twice gives it back.
pub proof fn lemma_rev_span_involutive(s: Span, len: int)
    requires
        span_within(s, len),
        len <= usize::MAX,
    ensures
        span_within(rev_span(s, len), len),
        rev_span(rev_span(s, len), len) == s,
{
}

pub open spec fn fixed_term(t: TermV, len: int) -> TermV
    decreases t,
{
    match t {
        TermV::BlankNode(b) => TermV::BlankNode(fixed_bnode(b, len)),
        TermV::Collection(s) => TermV::Collection(fixed_terms(s, len)),
        _ => t,
    }
}

pub open spec fn fixed_bnode(b: BlankNodeV, len: int) -> BlankNodeV
    decreases b,
{
    match b {
        BlankNodeV::Unnamed(pos) => BlankNodeV::Unnamed(fixed_pos(pos, len)),
        _ => b,
    }
}

pub open spec fn fixed_terms(s: Seq<(TermV, Span)>, len: int) -> Seq<(TermV, Span)>
    decreases s,
{
    if s.len() == 0 {
        s
    } else {
        fixed_terms(s.drop_last(), len).push((fixed_term(s.last().0, len), rev_span(s.last().1, len)))
    }
}

pub open spec fn fixed_pos(s: Seq<(POV, Span)>, len: int) -> Seq<(POV, Span)>
    decreases s,
{
    if s.len() == 0 {
        s
    } else {
        fixed_pos(s.drop_last(), len).push((fixed_po(s.last().0, len), rev_span(s.last().1, len)))
    }
}

pub open spec fn fixed_po(p: POV, len: int) -> POV
    decreases p,
{
    POV {
        predicate: (fixed_term(p.predicate.0, len), rev_span(p.predicate.1, len)),
        object: fixed_terms(p.object, len),
    }
}

pub open spec fn term_within(t: TermV, len: int) -> bool
    decreases t,
{
    match t {
        TermV::BlankNode(b) => bnode_within(b, len),
        TermV::Collection(s) => terms_within(s, len),
        _ => true,
    }
}

pub open spec fn bnode_within(b: BlankNodeV, len: int) -> bool
    decreases b,
{
    match b {
        BlankNodeV::Unnamed(pos) => pos_within(pos, len),
        _ => true,
    }
}

pub open spec fn terms_within(s: Seq<(TermV, Span)>, len: int) -> bool
    decreases s,
{
    s.len() == 0 || (terms_within(s.drop_last(), len) && term_within(s.last().0, len)
        && span_within(s.last().1, len))
}

pub open spec fn pos_within(s: Seq<(POV, Span)>, len: int) -> bool
    decreases s,
{
    s.len() == 0 || (pos_within(s.drop_last(), len) && po_within(s.last().0, len) && span_within(
        s.last().1,
        len,
    ))
}

pub open spec fn po_within(p: POV, len: int) -> bool
    decreases p,
{
    term_within(p.predicate.0, len) && span_within(p.predicate.1, len) && terms_within(
        p.object,
        len,
    )
}

proof fn lemma_terms_within(s: Seq<(TermV, Span)>, len: int, i: int)
    requires
        terms_within(s, len),
        0 <= i < s.len(),
    ensures
        term_within(s[i].0, len),
        span_within(s[i].1, len),
    decreases s.len(),
{
    if i < s.len() - 1 {
        lemma_terms_within(s.drop_last(), len, i);
    }
}

proof fn lemma_pos_within(s: Seq<(POV, Span)>, len: int, i: int)
    requires
        pos_within(s, len),
        0 <= i < s.len(),
    ensures
        po_within(s[i].0, len),
        span_within(s[i].1, len),
    decreases s.len(),
{
    if i < s.len() - 1 {
        lemma_pos_within(s.drop_last(), len, i);
    }
}

proof fn lemma_fixed_terms_len(s: Seq<(TermV, Span)>, len: int)
    ensures
        fixed_terms(s, len).len() == s.len(),
    decreases s.len(),
{
    if s.len() > 0 {
        lemma_fixed_terms_len(s.drop_last(), len);
    }
}

proof fn lemma_fixed_pos_len(s: Seq<(POV, Span)>, len: int)
    ensures
        fixed_pos(s, len).len() == s.len(),
    decreases s.len(),
{
    if s.len() > 0 {
        lemma_fixed_pos_len(s.drop_last(), len);
    }
}

proof fn lemma_fixed_terms_index(s: Seq<(TermV, Span)>, len: int, j: int)
    requires
        0 <= j < s.len(),
    ensures
        fixed_terms(s, len).len() == s.len(),
        fixed_terms(s, len)[j] == (fixed_term(s[j].0, len), rev_span(s[j].1, len)),
    decreases s.len(),
{
    lemma_fixed_terms_len(s, len);
    if j < s.len() - 1 {
        lemma_fixed_terms_index(s.drop_last(), len, j);
    }
}

proof fn lemma_fixed_pos_index(s: Seq<(POV, Span)>, len: int, j: int)
    requires
        0 <= j < s.len(),
    ensures
        fixed_pos(s, len).len() == s.len(),
        fixed_pos(s, len)[j] == (fixed_po(s[j].0, len), rev_span(s[j].1, len)),
    decreases s.len(),
{
    lemma_fixed_pos_len(s, len);
    if j < s.len() - 1 {
        lemma_fixed_pos_index(s.drop_last(), len, j);
    }
}

/// Mirrors the ranges of each term of `terms`, and of everything inside.
fn fix_terms(terms: &mut Vec<Spanned<Term>>, len: usize)
    requires
        terms_within(terms_view(old(terms)@), len as int),
    ensures
        terms_view(final(terms)@) == fixed_terms(terms_view(old(terms)@), len as int),
    decreases *old(terms), 0int,
{
    let ghost v = terms_view(terms@);
    let ghost orig = terms@;
    proof {
        lemma_terms_view(terms@);
        lemma_fixed_terms_len(v, len as int);
    }
    let n = terms.len();
    let mut i: usize = 0;
    while i < n
        invariant
            n == terms@.len() == orig.len(),
            orig == old(terms)@,
            0 <= i <= n,
            v == terms_view(orig),
            v == seq_view(orig),
            terms_within(v, len as int),
            forall|j: int| i <= j < n ==> terms@[j] == orig[j],
            forall|j: int|
                0 <= j < i ==> (#[trigger] terms@[j])@ == (
                    fixed_term(v[j].0, len as int),
                    rev_span(v[j].1, len as int),
                ),
        decreases n - i,
    {
        proof {
            lemma_terms_within(v, len as int, i as int);
        }
        let e = &mut terms[i];
        e.1 = rev_range(&e.1, len);
        assert(decreases_to!(*old(terms) => orig[i as int].0)) by {
            assert(decreases_to!(*old(terms) => old(terms)@));
            assert(decreases_to!(orig => orig[i as int]));
            assert(decreases_to!(orig[i as int] => orig[i as int].0));
        }
        e.0.fix_spans(len);
        i = i + 1;
    }
    proof {
        lemma_terms_view(terms@);
        assert forall|j: int| 0 <= j < n implies seq_view(terms@)[j] == fixed_terms(
            v,
            len as int,
        )[j] by {
            lemma_fixed_terms_index(v, len as int, j);
        }
        assert(seq_view(terms@) =~= fixed_terms(v, len as int));
    }
}

impl Term {
    /// Mirrors every range inside the term (the term's own range is held by
    /// its container).
    pub fn fix_spans(&mut self, len: usize)
        requires
            term_within(old(self)@, len as int),
        ensures
            final(self)@ == fixed_term(old(self)@, len as int),
        decreases *old(self), 2int,
    {
        match self {
            Term::BlankNode(bn) => {
                assert(decreases_to!(*old(self) => (*old(self))->BlankNode_0));
                bn.fix_spans(len)
            },
            Term::Collection(pos) => {
                assert(decreases_to!(*old(self) => (*old(self))->Collection_0));
                fix_terms(pos, len)
            },
            _ => {},
        }
    }
}

impl BlankNode {
    /// Mirrors every range inside the blank node.
    pub fn fix_spans(&mut self, len: usize)
        requires
            bnode_within(old(self)@, len as int),
        ensures
            final(self)@ == fixed_bnode(old(self)@, len as int),
        decreases *old(self), 1int,
    {
        match self {
            BlankNode::Unnamed(pos) => {
                assert(decreases_to!(*old(self) => (*old(self))->Unnamed_0));
                fix_pos(pos, len)
            },
            _ => {},
        }
    }
}

/// Mirrors the ranges of each predicate-object of `pos`, and of everything
/// inside.
fn fix_pos(pos: &mut Vec<Spanned<PO>>, len: usize)
    requires
        pos_within(pos_view(old(pos)@), len as int),
    ensures
        pos_view(final(pos)@) == fixed_pos(pos_view(old(pos)@), len as int),
    decreases *old(pos), 0int,
{
    let ghost v = pos_view(pos@);
    let ghost orig = pos@;
    proof {
        lemma_pos_view(pos@);
        lemma_fixed_pos_len(v, len as int);
    }
    let n = pos.len();
    let mut i: usize = 0;
    while i < n
        invariant
            n == pos@.len() == orig.len(),
            orig == old(pos)@,
            0 <= i <= n,
            v == pos_view(orig),
            v == seq_view(orig),
            pos_within(v, len as int),
            forall|j: int| i <= j < n ==> pos@[j] == orig[j],
            forall|j: int|
                0 <= j < i ==> (#[trigger] pos@[j])@ == (
                    fixed_po(v[j].0, len as int),
                    rev_span(v[j].1, len as int),
                ),
        decreases n - i,
    {
        proof {
            lemma_pos_within(v, len as int, i as int);
        }
        let e = &mut pos[i];
        e.1 = rev_range(&e.1, len);
        assert(decreases_to!(*old(pos) => orig[i as int].0)) by {
            assert(decreases_to!(*old(pos) => old(pos)@));
            assert(decreases_to!(orig => orig[i as int]));
            assert(decreases_to!(orig[i as int] => orig[i as int].0));
        }
        e.0.fix_spans(len);
        i = i + 1;
    }
    proof {
        lemma_pos_view(pos@);
        assert forall|j: int| 0 <= j < n implies seq_view(pos@)[j] == fixed_pos(
            v,
            len as int,
        )[j] by {
            lemma_fixed_pos_index(v, len as int, j);
        }
        assert(seq_view(pos@) =~= fixed_pos(v, len as int));
    }
}

impl PO {
    /// Mirrors the ranges of the predicate, of the objects and of everything
    /// inside them.
    pub fn fix_spans(&mut self, len: usize)
        requires
            po_within(old(self)@, len as int),
        ensures
            final(self)@ == fixed_po(old(self)@, len as int),
        decreases *old(self), 3int,
    {
        self.predicate.1 = rev_range(&self.predicate.1, len);
        assert(decreases_to!(*old(self) => old(self).predicate.0));
        self.predicate.0.fix_spans(len);
        assert(decreases_to!(*old(self) => old(self).object));
        fix_terms(&mut self.object, len);
    }
}

pub open spec fn fixed_triple(t: TripleV, len: int) -> TripleV {
    TripleV {
        subject: (fixed_term(t.subject.0, len), rev_span(t.subject.1, len)),
        po: fixed_pos(t.po, len),
    }
}

pub open spec fn triple_within(t: TripleV, len: int) -> bool {
    term_within(t.subject.0, len) && span_within(t.subject.1, len) && pos_within(t.po, len)
}

pub open spec fn fixed_base(b: BaseV, len: int) -> BaseV {
    BaseV(b.0, (b.1.0, rev_span(b.1.1, len)))
}

pub open spec fn fixed_prefix(p: PrefixV, len: int) -> PrefixV {
    PrefixV {
        span: rev_span(p.span, len),
        prefix: (p.prefix.0, rev_span(p.prefix.1, len)),
        value: (p.value.0, rev_span(p.value.1, len)),
    }
}

pub open spec fn prefix_within(p: PrefixV, len: int) -> bool {
    span_within(p.span, len) && span_within(p.prefix.1, len) && span_within(p.value.1, len)
}

/// Every range in the document lies within a text of length `len`.
pub open spec fn turtle_within(d: TurtleV, len: int) -> bool {
    &&& d.base matches Some(b) ==> span_within(b.1, len) && span_within(b.0.1.1, len)
    &&& forall|i: int|
        0 <= i < d.prefixes.len() ==> span_within(#[trigger] d.prefixes[i].1, len)
            && prefix_within(d.prefixes[i].0, len)
    &&& forall|i: int|
        0 <= i < d.triples.len() ==> span_within(#[trigger] d.triples[i].1, len) && triple_within(
            d.triples[i].0,
            len,
        )
}

/// The document with every range mirrored.
pub open spec fn fixed_turtle(d: TurtleV, len: int) -> TurtleV {
    TurtleV {
        base: match d.base {
            Some(b) => Some((fixed_base(b.0, len), rev_span(b.1, len))),
            None => None,
        },
        set_base: d.set_base,
        prefixes: d.prefixes.map_values(
            |p: (PrefixV, Span)| (fixed_prefix(p.0, len), rev_span(p.1, len)),
        ),
        triples: d.triples.map_values(
            |t: (TripleV, Span)| (fixed_triple(t.0, len), rev_span(t.1, len)),
        ),
    }
}

impl Triple {
    /// Mirrors every range in the triple.
    pub fn fix_spans(&mut self, len: usize)
        requires
            triple_within(old(self)@, len as int),
        ensures
            final(self)@ == fixed_triple(old(self)@, len as int),
    {
        self.subject.1 = rev_range(&self.subject.1, len);
        self.subject.0.fix_spans(len);
        fix_pos(&mut self.po, len);
    }
}

impl Base {
    /// Mirrors the range of the base IRI.
    pub fn fix_spans(&mut self, len: usize)
        requires
            span_within(old(self).1.1, len as int),
        ensures
            final(self)@ == fixed_base(old(self)@, len as int),
    {
        self.1.1 = rev_range(&self.1.1, len);
    }
}

impl Prefix {
    /// Mirrors the ranges of the keyword, the prefix and the IRI.
    pub fn fix_spans(&mut self, len: usize)
        requires
            prefix_within(old(self)@, len as int),
        ensures
            final(self)@ == fixed_prefix(old(self)@, len as int),
    {
        self.span = rev_range(&self.span, len);
        self.prefix.1 = rev_range(&self.prefix.1, len);
        self.value.1 = rev_range(&self.value.1, len);
    }
}

impl Turtle {
    /// Mirrors every range in the document.
    pub fn fix_spans(&mut self, len: usize)
        requires
            turtle_within(old(self)@, len as int),
        ensures
            final(self)@ == fixed_turtle(old(self)@, len as int),
    {
        match &mut self.base {
            Some(base) => {
                base.1 = rev_range(&base.1, len);
                base.0.fix_spans(len);
            },
            None => {},
        }
        let ghost ps = old(self).prefixes@;
        let n = self.prefixes.len();
        let mut i: usize = 0;
        while i < n
            invariant
                n == self.prefixes@.len() == ps.len(),
                ps == old(self).prefixes@,
                0 <= i <= n,
                turtle_within(old(self)@, len as int),
                forall|j: int| i <= j < n ==> self.prefixes@[j] == ps[j],
                forall|j: int|
                    0 <= j < i ==> (#[trigger] self.prefixes@[j])@ == (
                        fixed_prefix(ps[j]@.0, len as int),
                        rev_span(ps[j].1, len as int),
                    ),
                self.triples == old(self).triples,
                self.set_base == old(self).set_base,
                self@.base == fixed_turtle(old(self)@, len as int).base,
            decreases n - i,
        {
            assert(ps[i as int]@ == old(self)@.prefixes[i as int]);
            assert(span_within(old(self)@.prefixes[i as int].1, len as int));
            let e = &mut self.prefixes[i];
            e.1 = rev_range(&e.1, len);
            e.0.fix_spans(len);
            i = i + 1;
        }
        assert(self@.prefixes =~= fixed_turtle(old(self)@, len as int).prefixes);
        let ghost ts = old(self).triples@;
        let n = self.triples.len();
        let mut i: usize = 0;
        while i < n
            invariant
                n == self.triples@.len() == ts.len(),
                ts == old(self).triples@,
                0 <= i <= n,
                turtle_within(old(self)@, len as int),
                forall|j: int| i <= j < n ==> self.triples@[j] == ts[j],
                forall|j: int|
                    0 <= j < i ==> (#[trigger] self.triples@[j])@ == (
                        fixed_triple(ts[j]@.0, len as int),
                        rev_span(ts[j].1, len as int),
                    ),
                self@.prefixes == fixed_turtle(old(self)@, len as int).prefixes,
                self.set_base == old(self).set_base,
                self@.base == fixed_turtle(old(self)@, len as int).base,
            decreases n - i,
        {
            assert(ts[i as int]@ == old(self)@.triples[i as int]);
            assert(span_within(old(self)@.triples[i as int].1, len as int));
            let e = &mut self.triples[i];
            e.1 = rev_range(&e.1, len);
            e.0.fix_spans(len);
            i = i + 1;
        }
        assert(self@.triples =~= fixed_turtle(old(self)@, len as int).triples);
    }
}

/// Mirroring the ranges of a term twice gives the term back.
pub proof fn lemma_fixed_term_involutive(t: TermV, len: int)
    requires
        term_within(t, len),
        0 <= len <= usize::MAX,
    ensures
        term_within(fixed_term(t, len), len),
        fixed_term(fixed_term(t, len), len) == t,
    decreases t,
{
    match t {
        TermV::BlankNode(b) => lemma_fixed_bnode_involutive(b, len),
        TermV::Collection(s) => lemma_fixed_terms_involutive(s, len),
        _ => {},
    }
}

pub proof fn lemma_fixed_bnode_involutive(b: BlankNodeV, len: int)
    requires
        bnode_within(b, len),
        0 <= len <= usize::MAX,
    ensures
        bnode_within(fixed_bnode(b, len), len),
        fixed_bnode(fixed_bnode(b, len), len) == b,
    decreases b,
{
    match b {
        BlankNodeV::Unnamed(pos) => lemma_fixed_pos_involutive(pos, len),
        _ => {},
    }
}

pub proof fn lemma_fixed_terms_involutive(s: Seq<(TermV, Span)>, len: int)
    requires
        terms_within(s, len),
        0 <= len <= usize::MAX,
    ensures
        terms_within(fixed_terms(s, len), len),
        fixed_terms(fixed_terms(s, len), len) == s,
    decreases s,
{
    if s.len() > 0 {
        lemma_fixed_terms_involutive(s.drop_last(), len);
        lemma_fixed_term_involutive(s.last().0, len);
        lemma_rev_span_involutive(s.last().1, len);
        let f = fixed_terms(s, len);
        assert(f.drop_last() =~= fixed_terms(s.drop_last(), len));
        assert(fixed_terms(f, len) =~= s);
    }
}

pub proof fn lemma_fixed_pos_involutive(s: Seq<(POV, Span)>, len: int)
    requires
        pos_within(s, len),
        0 <= len <= usize::MAX,
    ensures
        pos_within(fixed_pos(s, len), len),
        fixed_pos(fixed_pos(s, len), len) == s,
    decreases s,
{
    if s.len() > 0 {
        lemma_fixed_pos_involutive(s.drop_last(), len);
        lemma_fixed_po_involutive(s.last().0, len);
        lemma_rev_span_involutive(s.last().1, len);
        let f = fixed_pos(s, len);
        assert(f.drop_last() =~= fixed_pos(s.drop_last(), len));
        assert(fixed_pos(f, len) =~= s);
    }
}

pub proof fn lemma_fixed_po_involutive(p: POV, len: int)
    requires
        po_within(p, len),
        0 <= len <= usize::MAX,
    ensures
        po_within(fixed_po(p, len), len),
        fixed_po(fixed_po(p, len), len) == p,
    decreases p,
{
    lemma_fixed_term_involutive(p.predicate.0, len);
    lemma_rev_span_involutive(p.predicate.1, len);
    lemma_fixed_terms_involutive(p.object, len);
}

/// Mirroring every range of a document twice gives the document back.
pub proof fn lemma_fix_spans_involutive(d: TurtleV, len: int)
    requires
        turtle_within(d, len),
        0 <= len <= usize::MAX,
    ensures
        turtle_within(fixed_turtle(d, len), len),
        fixed_turtle(fixed_turtle(d, len), len) == d,
{
    let f = fixed_turtle(d, len);
    match d.base {
        Some(b) => {
            lemma_rev_span_involutive(b.1, len);
            lemma_rev_span_involutive(b.0.1.1, len);
        },
        None => {},
    }
    assert forall|i: int| 0 <= i < d.prefixes.len() implies span_within(
        #[trigger] f.prefixes[i].1,
        len,
    ) && prefix_within(f.prefixes[i].0, len) && f.prefixes.map_values(
        |p: (PrefixV, Span)| (fixed_prefix(p.0, len), rev_span(p.1, len)),
    )[i] == d.prefixes[i] by {
        assert(span_within(d.prefixes[i].1, len));
        let p = d.prefixes[i];
        lemma_rev_span_involutive(p.1, len);
        lemma_rev_span_involutive(p.0.span, len);
        lemma_rev_span_involutive(p.0.prefix.1, len);
        lemma_rev_span_involutive(p.0.value.1, len);
    }
    assert forall|i: int| 0 <= i < d.triples.len() implies span_within(
        #[trigger] f.triples[i].1,
        len,
    ) && triple_within(f.triples[i].0, len) && f.triples.map_values(
        |t: (TripleV, Span)| (fixed_triple(t.0, len), rev_span(t.1, len)),
    )[i] == d.triples[i] by {
        assert(span_within(d.triples[i].1, len));
        let t = d.triples[i];
        lemma_rev_span_involutive(t.1, len);
        lemma_rev_span_involutive(t.0.subject.1, len);
        lemma_fixed_term_involutive(t.0.subject.0, len);
        lemma_fixed_pos_involutive(t.0.po, len);
    }
    assert(fixed_turtle(f, len).prefixes =~= d.prefixes);
    assert(fixed_turtle(f, len).triples =~= d.triples);
}

} // verus!
