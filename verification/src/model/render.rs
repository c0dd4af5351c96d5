//! Rendering of the document model as Turtle text.
use super::{
    Base, BaseV, Prefix, PrefixV, Triple, TripleV, Turtle, TurtleV, lemma_pos_view, lemma_terms_view, pos_view, seq_view, terms_view, BlankNode, BlankNodeV, Literal, LiteralV, NamedNode, NamedNodeV, RDFLiteral, RDFLiteralV, Term,
    TermV, PO, POV,
};
use crate::token::{Span, Spanned, StringStyle};
use vstd::prelude::*;
use vstd::string::StringExecFns;

verus! {

/// The quote that delimits a string literal of the given style.
pub open spec fn quote_text(s: StringStyle) -> Seq<char> {
    match s {
        StringStyle::DoubleLong => "\"\"\""@,
        StringStyle::Double => "\""@,
        StringStyle::SingleLong => "'''"@,
        StringStyle::Single => "'"@,
    }
}

pub open spec fn named_node_text(n: NamedNodeV) -> Seq<char> {
    match n {
        NamedNodeV::Full(x) => "<"@ + x + ">"@,
        NamedNodeV::Prefixed { prefix, value } => prefix + ":"@ + value,
        NamedNodeV::A => "a"@,
        NamedNodeV::Invalid => "invalid"@,
    }
}

pub open spec fn bool_text(b: bool) -> Seq<char> {
    if b {
        "true"@
    } else {
        "false"@
    }
}

pub open spec fn rdf_literal_text(l: RDFLiteralV) -> Seq<char> {
    let q = quote_text(l.quote_style);
    let body = q + l.value + q;
    match (l.lang, l.ty) {
        (None, None) => body,
        (None, Some(t)) => body + "^^"@ + named_node_text(t),
        (Some(g), None) => body + "@"@ + g,
        (Some(g), Some(t)) => body + "@"@ + g + "^^"@ + named_node_text(t),
    }
}

pub open spec fn literal_text(l: LiteralV) -> Seq<char> {
    match l {
        LiteralV::RDF(x) => rdf_literal_text(x),
        LiteralV::Boolean(b) => bool_text(b),
        LiteralV::Numeric(x) => x,
    }
}

/// The texts of the terms of a collection, one after the other.
pub open spec fn terms_text(s: Seq<(TermV, Span)>) -> Seq<char>
    decreases s,
{
    if s.len() == 0 {
        Seq::empty()
    } else {
        terms_text(s.drop_last()) + term_text(s.last().0)
    }
}

pub open spec fn term_text(t: TermV) -> Seq<char>
    decreases t,
{
    match t {
        TermV::Literal(l) => literal_text(l),
        TermV::BlankNode(b) => bnode_text(b),
        TermV::NamedNode(n) => named_node_text(n),
        TermV::Collection(s) => "( "@ + terms_text(s) + "  )"@,
        TermV::Invalid => "invalid"@,
        TermV::Variable(x) => x,
    }
}

pub open spec fn bnode_text(b: BlankNodeV) -> Seq<char>
    decreases b,
{
    match b {
        BlankNodeV::Named(x) => "_:"@ + x,
        BlankNodeV::Unnamed(pos) => if pos.len() == 0 {
            "[ ]"@
        } else {
            "[ "@ + pos_text(pos) + " ]"@
        },
        BlankNodeV::Invalid => "invalid"@,
    }
}

/// Each predicate-object followed by ` ;`.
pub open spec fn pos_text(s: Seq<(POV, Span)>) -> Seq<char>
    decreases s,
{
    if s.len() == 0 {
        Seq::empty()
    } else {
        pos_text(s.drop_last()) + po_text(s.last().0) + " ;"@
    }
}

/// The objects after the first, each preceded by `, `.
pub open spec fn more_objects_text(s: Seq<(TermV, Span)>) -> Seq<char>
    decreases s,
{
    if s.len() <= 1 {
        Seq::empty()
    } else {
        more_objects_text(s.drop_last()) + ", "@ + term_text(s.last().0)
    }
}

pub open spec fn po_text(p: POV) -> Seq<char>
    decreases p,
{
    if p.object.len() == 0 {
        term_text(p.predicate.0) + " "@
    } else {
        term_text(p.predicate.0) + " "@ + term_text(p.object[0].0) + more_objects_text(p.object)
    }
}

/// Every predicate-object list inside `t` has at least one object (the
/// renderer reads the first object of each).
pub open spec fn term_printable(t: TermV) -> bool
    decreases t,
{
    match t {
        TermV::BlankNode(b) => bnode_printable(b),
        TermV::Collection(s) => terms_printable(s),
        _ => true,
    }
}

pub open spec fn bnode_printable(b: BlankNodeV) -> bool
    decreases b,
{
    match b {
        BlankNodeV::Unnamed(pos) => pos_printable(pos),
        _ => true,
    }
}

pub open spec fn terms_printable(s: Seq<(TermV, Span)>) -> bool
    decreases s,
{
    s.len() == 0 || (terms_printable(s.drop_last()) && term_printable(s.last().0))
}

pub open spec fn pos_printable(s: Seq<(POV, Span)>) -> bool
    decreases s,
{
    s.len() == 0 || (pos_printable(s.drop_last()) && po_printable(s.last().0))
}

pub open spec fn po_printable(p: POV) -> bool
    decreases p,
{
    p.object.len() > 0 && term_printable(p.predicate.0) && terms_printable(p.object)
}

pub proof fn lemma_terms_printable(s: Seq<(TermV, Span)>, i: int)
    requires
        terms_printable(s),
        0 <= i < s.len(),
    ensures
        term_printable(s[i].0),
        terms_printable(s.take(i)),
    decreases s.len(),
{
    if i < s.len() - 1 {
        lemma_terms_printable(s.drop_last(), i);
        assert(s.drop_last().take(i) =~= s.take(i));
    } else {
        assert(s.drop_last() =~= s.take(i));
    }
}

pub proof fn lemma_pos_printable(s: Seq<(POV, Span)>, i: int)
    requires
        pos_printable(s),
        0 <= i < s.len(),
    ensures
        po_printable(s[i].0),
    decreases s.len(),
{
    if i < s.len() - 1 {
        lemma_pos_printable(s.drop_last(), i);
    }
}

impl NamedNode {
    /// The node as Turtle text: `<iri>`, `prefix:local`, `a` or `invalid`.
    pub fn to_string(&self) -> (r: String)
        ensures
            r@ == named_node_text(self@),
    {
        match self {
            NamedNode::Full(x) => {
                let mut r = String::from_str("<");
                r.append(x.as_str());
                r.append(">");
                r
            },
            NamedNode::Prefixed { prefix, value } => {
                let mut r = String::from_str(prefix.as_str());
                r.append(":");
                r.append(value.as_str());
                r
            },
            NamedNode::A => String::from_str("a"),
            NamedNode::Invalid => String::from_str("invalid"),
        }
    }
}

fn quote_str(s: StringStyle) -> (r: &'static str)
    ensures
        r@ == quote_text(s),
{
    match s {
        StringStyle::DoubleLong => "\"\"\"",
        StringStyle::Double => "\"",
        StringStyle::SingleLong => "'''",
        StringStyle::Single => "'",
    }
}

impl RDFLiteral {
    /// The literal's lexical value.
    pub fn plain_string(&self) -> (r: String)
        ensures
            r@ == self.value@,
    {
        self.value.clone()
    }

    /// The literal as Turtle text: quoted, with its language tag and
    /// datatype.
    pub fn to_string(&self) -> (r: String)
        ensures
            r@ == rdf_literal_text(self@),
    {
        let q = quote_str(self.quote_style);
        let mut r = String::from_str(q);
        r.append(self.value.as_str());
        r.append(q);
        match &self.lang {
            Some(g) => {
                r.append("@");
                r.append(g.as_str());
            },
            None => {},
        }
        match &self.ty {
            Some(t) => {
                r.append("^^");
                let ts = t.to_string();
                r.append(ts.as_str());
            },
            None => {},
        }
        r
    }
}

impl Literal {
    /// The literal's lexical value: the string, `true`/`false`, or the
    /// number as written.
    pub fn plain_string(&self) -> (r: String)
        ensures
            r@ == match self@ {
                LiteralV::RDF(x) => x.value,
                LiteralV::Boolean(b) => bool_text(b),
                LiteralV::Numeric(x) => x,
            },
    {
        match self {
            Literal::RDF(s) => s.plain_string(),
            Literal::Boolean(x) => if *x {
                String::from_str("true")
            } else {
                String::from_str("false")
            },
            Literal::Numeric(x) => x.clone(),
        }
    }

    /// The literal as Turtle text.
    pub fn to_string(&self) -> (r: String)
        ensures
            r@ == literal_text(self@),
    {
        match self {
            Literal::RDF(x) => x.to_string(),
            Literal::Boolean(x) => if *x {
                String::from_str("true")
            } else {
                String::from_str("false")
            },
            Literal::Numeric(x) => x.clone(),
        }
    }
}

impl Term {
    /// The term as Turtle text.
    pub fn to_string(&self) -> (r: String)
        requires
            term_printable(self@),
        ensures
            r@ == term_text(self@),
        decreases self,
    {
        match self {
            Term::Literal(l) => l.to_string(),
            Term::BlankNode(b) => b.to_string(),
            Term::NamedNode(n) => n.to_string(),
            Term::Collection(n) => {
                proof {
                    lemma_terms_view(n@);
                }
                let ghost v = terms_view(n@);
                let mut r = String::from_str("( ");
                let mut i: usize = 0;
                while i < n.len()
                    invariant
                        0 <= i <= n.len(),
                        v == terms_view(n@),
                        v == seq_view(n@),
                        terms_printable(v),
                        *self == Term::Collection(*n),
                        r@ == "( "@ + terms_text(v.take(i as int)),
                    decreases n.len() - i,
                {
                    proof {
                        lemma_terms_printable(v, i as int);
                        assert(v.take(i + 1).drop_last() =~= v.take(i as int));
                    }
                    assert(decreases_to!(self => n@[i as int].0)) by {
                        assert(decreases_to!(*self => (*self)->Collection_0));
                        assert(decreases_to!(*n => n@));
                        assert(decreases_to!(n@ => n@[i as int]));
                        assert(decreases_to!(n@[i as int] => n@[i as int].0));
                    }
                    let t = n[i].0.to_string();
                    r.append(t.as_str());
                    i = i + 1;
                }
                proof {
                    assert(v.take(n.len() as int) =~= v);
                }
                r.append("  )");
                r
            },
            Term::Invalid => String::from_str("invalid"),
            Term::Variable(x) => x.0.clone(),
        }
    }
}

impl BlankNode {
    /// The blank node as Turtle text: `_:label`, `[ ]` or `[ po ; ... ]`.
    pub fn to_string(&self) -> (r: String)
        requires
            bnode_printable(self@),
        ensures
            r@ == bnode_text(self@),
        decreases self,
    {
        match self {
            BlankNode::Named(x) => {
                let mut r = String::from_str("_:");
                r.append(x.as_str());
                r
            },
            BlankNode::Unnamed(pos) => {
                proof {
                    lemma_pos_view(pos@);
                }
                let ghost v = pos_view(pos@);
                if pos.len() == 0 {
                    return String::from_str("[ ]");
                }
                let mut r = String::from_str("[ ");
                let mut i: usize = 0;
                while i < pos.len()
                    invariant
                        0 <= i <= pos.len(),
                        v == pos_view(pos@),
                        v == seq_view(pos@),
                        pos_printable(v),
                        *self == BlankNode::Unnamed(*pos),
                        r@ == "[ "@ + pos_text(v.take(i as int)),
                    decreases pos.len() - i,
                {
                    proof {
                        lemma_pos_printable(v, i as int);
                        assert(v.take(i + 1).drop_last() =~= v.take(i as int));
                    }
                    assert(decreases_to!(self => pos@[i as int].0)) by {
                        assert(decreases_to!(*self => (*self)->Unnamed_0));
                        assert(decreases_to!(*pos => pos@));
                        assert(decreases_to!(pos@ => pos@[i as int]));
                        assert(decreases_to!(pos@[i as int] => pos@[i as int].0));
                    }
                    let t = pos[i].0.to_string();
                    r.append(t.as_str());
                    r.append(" ;");
                    i = i + 1;
                }
                proof {
                    assert(v.take(pos.len() as int) =~= v);
                }
                r.append(" ]");
                r
            },
            BlankNode::Invalid => String::from_str("invalid"),
        }
    }
}

impl PO {
    /// The predicate and its objects as Turtle text, objects separated by
    /// `, `.
    pub fn to_string(&self) -> (r: String)
        requires
            po_printable(self@),
        ensures
            r@ == po_text(self@),
        decreases self,
    {
        proof {
            lemma_terms_view(self.object@);
        }
        let ghost v = terms_view(self.object@);
        assert(decreases_to!(self => self.predicate.0));
        let mut r = self.predicate.0.to_string();
        r.append(" ");
        proof {
            lemma_terms_printable(v, 0);
        }
        assert(decreases_to!(self => self.object@[0].0));
        let first = self.object[0].0.to_string();
        r.append(first.as_str());
        let mut i: usize = 1;
        while i < self.object.len()
            invariant
                1 <= i <= self.object.len(),
                v == terms_view(self.object@),
                v == seq_view(self.object@),
                terms_printable(v),
                r@ == term_text(self.predicate.0@) + " "@ + term_text(v[0].0) + more_objects_text(
                    v.take(i as int),
                ),
            decreases self.object.len() - i,
        {
            proof {
                lemma_terms_printable(v, i as int);
                assert(v.take(i + 1).drop_last() =~= v.take(i as int));
            }
            assert(decreases_to!(self => self.object@[i as int].0));
            r.append(", ");
            let t = self.object[i].0.to_string();
            r.append(t.as_str());
            i = i + 1;
        }
        proof {
            assert(v.take(self.object.len() as int) =~= v);
        }
        r
    }
}

/// The predicate-objects after the first, each preceded by `; `.
pub open spec fn more_pos_text(s: Seq<(POV, Span)>) -> Seq<char>
    decreases s,
{
    if s.len() <= 1 {
        Seq::empty()
    } else {
        more_pos_text(s.drop_last()) + "; "@ + po_text(s.last().0)
    }
}

pub open spec fn triple_printable(t: TripleV) -> bool {
    t.po.len() > 0 && term_printable(t.subject.0) && pos_printable(t.po)
}

pub open spec fn triple_text(t: TripleV) -> Seq<char> {
    term_text(t.subject.0) + " "@ + po_text(t.po[0].0) + more_pos_text(t.po) + "."@
}

pub open spec fn base_text(b: BaseV) -> Seq<char> {
    "@base "@ + named_node_text(b.1.0) + " ."@
}

pub open spec fn prefix_text(p: PrefixV) -> Seq<char> {
    "@prefix "@ + p.prefix.0 + ": "@ + named_node_text(p.value.0) + " ."@
}

pub open spec fn prefix_lines(s: Seq<(PrefixV, Span)>) -> Seq<char>
    decreases s.len(),
{
    if s.len() == 0 {
        Seq::empty()
    } else {
        prefix_lines(s.drop_last()) + prefix_text(s.last().0) + "\n"@
    }
}

pub open spec fn triple_lines(s: Seq<(TripleV, Span)>) -> Seq<char>
    decreases s.len(),
{
    if s.len() == 0 {
        Seq::empty()
    } else {
        triple_lines(s.drop_last()) + triple_text(s.last().0) + "\n"@
    }
}

pub open spec fn turtle_printable(d: TurtleV) -> bool {
    forall|i: int| 0 <= i < d.triples.len() ==> triple_printable(#[trigger] d.triples[i].0)
}

/// The document as Turtle text: the base, the prefixes and the triples, one
/// per line.
pub open spec fn turtle_text(d: TurtleV) -> Seq<char> {
    let head = match d.base {
        Some(b) => base_text(b.0) + "\n"@,
        None => Seq::empty(),
    };
    head + prefix_lines(d.prefixes) + triple_lines(d.triples)
}

impl Triple {
    /// The triple as Turtle text: subject, predicate-objects separated by
    /// `; `, and a closing `.`.
    pub fn to_string(&self) -> (r: String)
        requires
            triple_printable(self@),
        ensures
            r@ == triple_text(self@),
    {
        proof {
            lemma_pos_view(self.po@);
            lemma_pos_printable(pos_view(self.po@), 0);
        }
        let ghost v = pos_view(self.po@);
        let mut r = self.subject.0.to_string();
        r.append(" ");
        let first = self.po[0].0.to_string();
        r.append(first.as_str());
        let mut i: usize = 1;
        while i < self.po.len()
            invariant
                1 <= i <= self.po.len(),
                v == pos_view(self.po@),
                v == seq_view(self.po@),
                pos_printable(v),
                r@ == term_text(self.subject.0@) + " "@ + po_text(v[0].0) + more_pos_text(
                    v.take(i as int),
                ),
            decreases self.po.len() - i,
        {
            proof {
                lemma_pos_printable(v, i as int);
                assert(v.take(i + 1).drop_last() =~= v.take(i as int));
            }
            r.append("; ");
            let t = self.po[i].0.to_string();
            r.append(t.as_str());
            i = i + 1;
        }
        proof {
            assert(v.take(self.po.len() as int) =~= v);
        }
        r.append(".");
        r
    }
}

impl Base {
    /// The declaration as Turtle text: `@base <iri> .`.
    pub fn to_string(&self) -> (r: String)
        ensures
            r@ == base_text(self@),
    {
        let mut r = String::from_str("@base ");
        let n = self.1.0.to_string();
        r.append(n.as_str());
        r.append(" .");
        r
    }
}

impl Prefix {
    /// The declaration as Turtle text: `@prefix pre: <iri> .`.
    pub fn to_string(&self) -> (r: String)
        ensures
            r@ == prefix_text(self@),
    {
        let mut r = String::from_str("@prefix ");
        r.append(self.prefix.0.as_str());
        r.append(": ");
        let n = self.value.0.to_string();
        r.append(n.as_str());
        r.append(" .");
        r
    }
}

impl Turtle {
    /// The document as Turtle text, one statement per line.
    pub fn to_string(&self) -> (r: String)
        requires
            turtle_printable(self@),
        ensures
            r@ == turtle_text(self@),
    {
        let mut r = String::new();
        match &self.base {
            Some(b) => {
                let t = b.0.to_string();
                r.append(t.as_str());
                r.append("\n");
            },
            None => {},
        }
        let ghost head = r@;
        let ghost ps = self@.prefixes;
        let mut i: usize = 0;
        while i < self.prefixes.len()
            invariant
                0 <= i <= self.prefixes.len(),
                ps == seq_view(self.prefixes@),
                r@ == head + prefix_lines(ps.take(i as int)),
            decreases self.prefixes.len() - i,
        {
            proof {
                assert(ps.take(i + 1).drop_last() =~= ps.take(i as int));
            }
            let t = self.prefixes[i].0.to_string();
            r.append(t.as_str());
            r.append("\n");
            i = i + 1;
        }
        proof {
            assert(ps.take(self.prefixes.len() as int) =~= ps);
        }
        let ghost mid = r@;
        let ghost ts = self@.triples;
        let mut i: usize = 0;
        while i < self.triples.len()
            invariant
                0 <= i <= self.triples.len(),
                ts == seq_view(self.triples@),
                turtle_printable(self@),
                ts == self@.triples,
                r@ == mid + triple_lines(ts.take(i as int)),
            decreases self.triples.len() - i,
        {
            proof {
                assert(ts.take(i + 1).drop_last() =~= ts.take(i as int));
                assert(triple_printable(ts[i as int].0));
            }
            let t = self.triples[i].0.to_string();
            r.append(t.as_str());
            r.append("\n");
            i = i + 1;
        }
        proof {
            assert(ts.take(self.triples.len() as int) =~= ts);
        }
        r
    }
}


/// A document with a base declaration renders that declaration first, as
/// `@base <iri> .` on a line of its own, before its prefixes and triples.
pub proof fn lemma_base_rendered_first(d: TurtleV)
    requires
        d.base is Some,
    ensures
        ({
            let b = (d.base->0).0;
            let line = "@base "@ + named_node_text(b.1.0) + " ."@ + "\n"@;
            &&& turtle_text(d).len() >= line.len()
            &&& turtle_text(d).take(line.len() as int) == line
            &&& turtle_text(d).skip(line.len() as int) == prefix_lines(d.prefixes) + triple_lines(
                d.triples,
            )
        }),
{
    let b = (d.base->0).0;
    let line = "@base "@ + named_node_text(b.1.0) + " ."@ + "\n"@;
    let rest = prefix_lines(d.prefixes) + triple_lines(d.triples);
    assert(turtle_text(d) =~= line + rest);
    assert((line + rest).take(line.len() as int) =~= line);
    assert((line + rest).skip(line.len() as int) =~= rest);
}

/// A document without a base declaration renders its prefixes first.
pub proof fn lemma_no_base_rendered(d: TurtleV)
    requires
        d.base is None,
    ensures
        turtle_text(d) == prefix_lines(d.prefixes) + triple_lines(d.triples),
{
    assert(turtle_text(d) =~= prefix_lines(d.prefixes) + triple_lines(d.triples));
}

} // verus!
