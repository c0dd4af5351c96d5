//! The Turtle document model.
pub mod render;
pub mod spans;
pub mod expand;

use crate::token::{Span, Spanned, StringStyle};
use vstd::prelude::*;

verus! {

/// A query variable, such as `?x`.
#[derive(Clone, Debug)]
pub struct Variable(pub String);

/// A literal term.
#[derive(Clone, Debug)]
pub enum Literal {
    RDF(RDFLiteral),
    Boolean(bool),
    Numeric(String),
}

/// A string literal with its quoting style and optional language tag or
/// datatype.
#[derive(Clone, Debug)]
pub struct RDFLiteral {
    pub value: String,
    pub quote_style: StringStyle,
    pub lang: Option<String>,
    pub ty: Option<NamedNode>,
}

/// An IRI: written in full, as a prefixed name, as the keyword `a`, or
/// unreadable.
#[derive(Clone, Debug)]
pub enum NamedNode {
    Full(String),
    Prefixed { prefix: String, value: String },
    A,
    Invalid,
}

/// A blank node: labelled, or written as a list of predicate-objects.
#[derive(Debug)]
pub enum BlankNode {
    Named(String),
    Unnamed(Vec<Spanned<PO>>),
    Invalid,
}

/// A term of a triple.
#[derive(Debug)]
pub enum Term {
    Literal(Literal),
    BlankNode(BlankNode),
    NamedNode(NamedNode),
    Collection(Vec<Spanned<Term>>),
    Variable(Variable),
    Invalid,
}

/// A subject with its predicate-object lists.
#[derive(Debug)]
pub struct Triple {
    pub subject: Spanned<Term>,
    pub po: Vec<Spanned<PO>>,
}

/// A predicate with its objects.
#[derive(Debug)]
pub struct PO {
    pub predicate: Spanned<Term>,
    pub object: Vec<Spanned<Term>>,
}

/// A base declaration: the keyword's span and the base IRI.
#[derive(Clone, Debug)]
pub struct Base(pub Span, pub Spanned<NamedNode>);

/// A prefix declaration: the keyword's span, the prefix and its IRI.
#[derive(Clone, Debug)]
pub struct Prefix {
    pub span: Span,
    pub prefix: Spanned<String>,
    pub value: Spanned<NamedNode>,
}

/// A Turtle document: its base declaration, the location it was read from,
/// its prefix declarations and its triples.
#[derive(Debug)]
pub struct Turtle {
    pub base: Option<Spanned<Base>>,
    pub set_base: String,
    pub prefixes: Vec<Spanned<Prefix>>,
    pub triples: Vec<Spanned<Triple>>,
}

// ---------------------------------------------------------------------------
// Views
// ---------------------------------------------------------------------------

pub enum LiteralV {
    RDF(RDFLiteralV),
    Boolean(bool),
    Numeric(Seq<char>),
}

pub struct RDFLiteralV {
    pub value: Seq<char>,
    pub quote_style: StringStyle,
    pub lang: Option<Seq<char>>,
    pub ty: Option<NamedNodeV>,
}

pub enum NamedNodeV {
    Full(Seq<char>),
    Prefixed { prefix: Seq<char>, value: Seq<char> },
    A,
    Invalid,
}

pub enum BlankNodeV {
    Named(Seq<char>),
    Unnamed(Seq<(POV, Span)>),
    Invalid,
}

pub enum TermV {
    Literal(LiteralV),
    BlankNode(BlankNodeV),
    NamedNode(NamedNodeV),
    Collection(Seq<(TermV, Span)>),
    Variable(Seq<char>),
    Invalid,
}

pub struct POV {
    pub predicate: (TermV, Span),
    pub object: Seq<(TermV, Span)>,
}

pub struct TripleV {
    pub subject: (TermV, Span),
    pub po: Seq<(POV, Span)>,
}

pub struct BaseV(pub Span, pub (NamedNodeV, Span));

pub struct PrefixV {
    pub span: Span,
    pub prefix: (Seq<char>, Span),
    pub value: (NamedNodeV, Span),
}

pub struct TurtleV {
    pub base: Option<(BaseV, Span)>,
    pub set_base: Seq<char>,
    pub prefixes: Seq<(PrefixV, Span)>,
    pub triples: Seq<(TripleV, Span)>,
}

pub open spec fn opt_str_view(o: Option<String>) -> Option<Seq<char>> {
    match o {
        Some(s) => Some(s@),
        None => None,
    }
}

impl View for Variable {
    type V = Seq<char>;

    open spec fn view(&self) -> Seq<char> {
        self.0@
    }
}

impl View for NamedNode {
    type V = NamedNodeV;

    open spec fn view(&self) -> NamedNodeV {
        match self {
            NamedNode::Full(s) => NamedNodeV::Full(s@),
            NamedNode::Prefixed { prefix, value } => NamedNodeV::Prefixed {
                prefix: prefix@,
                value: value@,
            },
            NamedNode::A => NamedNodeV::A,
            NamedNode::Invalid => NamedNodeV::Invalid,
        }
    }
}

impl View for RDFLiteral {
    type V = RDFLiteralV;

    open spec fn view(&self) -> RDFLiteralV {
        RDFLiteralV {
            value: self.value@,
            quote_style: self.quote_style,
            lang: opt_str_view(self.lang),
            ty: match self.ty {
                Some(n) => Some(n@),
                None => None,
            },
        }
    }
}

impl View for Literal {
    type V = LiteralV;

    open spec fn view(&self) -> LiteralV {
        match self {
            Literal::RDF(l) => LiteralV::RDF(l@),
            Literal::Boolean(b) => LiteralV::Boolean(*b),
            Literal::Numeric(s) => LiteralV::Numeric(s@),
        }
    }
}

pub open spec fn terms_view(v: Seq<Spanned<Term>>) -> Seq<(TermV, Span)>
    decreases v,
{
    if v.len() == 0 {
        Seq::empty()
    } else {
        terms_view(v.subrange(0, v.len() - 1)).push(
            (term_view(v[v.len() - 1].0), v[v.len() - 1].1),
        )
    }
}

pub open spec fn pos_view(v: Seq<Spanned<PO>>) -> Seq<(POV, Span)>
    decreases v,
{
    if v.len() == 0 {
        Seq::empty()
    } else {
        pos_view(v.subrange(0, v.len() - 1)).push((po_view(v[v.len() - 1].0), v[v.len() - 1].1))
    }
}

pub open spec fn term_view(t: Term) -> TermV
    decreases t,
{
    match t {
        Term::Literal(l) => TermV::Literal(l@),
        Term::BlankNode(b) => TermV::BlankNode(bnode_view(b)),
        Term::NamedNode(n) => TermV::NamedNode(n@),
        Term::Collection(v) => TermV::Collection(terms_view(v@)),
        Term::Variable(v) => TermV::Variable(v@),
        Term::Invalid => TermV::Invalid,
    }
}

pub open spec fn bnode_view(b: BlankNode) -> BlankNodeV
    decreases b,
{
    match b {
        BlankNode::Named(s) => BlankNodeV::Named(s@),
        BlankNode::Unnamed(v) => BlankNodeV::Unnamed(pos_view(v@)),
        BlankNode::Invalid => BlankNodeV::Invalid,
    }
}

pub open spec fn po_view(p: PO) -> POV
    decreases p,
{
    POV {
        predicate: (term_view(p.predicate.0), p.predicate.1),
        object: terms_view(p.object@),
    }
}

impl View for Term {
    type V = TermV;

    open spec fn view(&self) -> TermV {
        term_view(*self)
    }
}

impl View for BlankNode {
    type V = BlankNodeV;

    open spec fn view(&self) -> BlankNodeV {
        bnode_view(*self)
    }
}

impl View for PO {
    type V = POV;

    open spec fn view(&self) -> POV {
        po_view(*self)
    }
}

impl View for Triple {
    type V = TripleV;

    open spec fn view(&self) -> TripleV {
        TripleV { subject: self.subject@, po: pos_view(self.po@) }
    }
}

impl View for Base {
    type V = BaseV;

    open spec fn view(&self) -> BaseV {
        BaseV(self.0, self.1@)
    }
}

impl View for Prefix {
    type V = PrefixV;

    open spec fn view(&self) -> PrefixV {
        PrefixV { span: self.span, prefix: self.prefix@, value: self.value@ }
    }
}

pub open spec fn seq_view<T: View>(v: Seq<T>) -> Seq<T::V> {
    v.map_values(|x: T| x@)
}

impl View for Turtle {
    type V = TurtleV;

    open spec fn view(&self) -> TurtleV {
        TurtleV {
            base: match self.base {
                Some(b) => Some(b@),
                None => None,
            },
            set_base: self.set_base@,
            prefixes: seq_view(self.prefixes@),
            triples: seq_view(self.triples@),
        }
    }
}

/// The recursive view of a sequence of spanned terms is the view of each.
pub proof fn lemma_terms_view(v: Seq<Spanned<Term>>)
    ensures
        terms_view(v) == seq_view(v),
    decreases v.len(),
{
    if v.len() > 0 {
        lemma_terms_view(v.subrange(0, v.len() - 1));
    }
    assert(terms_view(v) =~= seq_view(v));
}

/// The recursive view of a sequence of spanned predicate-objects is the view
/// of each.
pub proof fn lemma_pos_view(v: Seq<Spanned<PO>>)
    ensures
        pos_view(v) == seq_view(v),
    decreases v.len(),
{
    if v.len() > 0 {
        lemma_pos_view(v.subrange(0, v.len() - 1));
    }
    assert(pos_view(v) =~= seq_view(v));
}

impl Turtle {
    /// An empty document read from `location`.
    pub fn empty(location: &str) -> (r: Turtle)
        ensures
            r@ == (TurtleV {
                base: None,
                set_base: location@,
                prefixes: Seq::empty(),
                triples: Seq::empty(),
            }),
    {
        let r = Turtle {
            base: None,
            set_base: location.to_owned(),
            prefixes: Vec::new(),
            triples: Vec::new(),
        };
        assert(r@.prefixes =~= Seq::empty());
        assert(r@.triples =~= Seq::empty());
        r
    }
}

/// The kind of a term, as a word.
pub open spec fn term_kind_name(t: TermV) -> Seq<char> {
    match t {
        TermV::Literal(_) => "literal"@,
        TermV::BlankNode(_) => "blank node"@,
        TermV::NamedNode(_) => "named node"@,
        TermV::Collection(_) => "collection"@,
        TermV::Invalid => "invalid"@,
        TermV::Variable(_) => "variable"@,
    }
}

impl Term {
    /// Whether the term can stand as a subject: a blank node or a named node.
    pub fn is_subject(&self) -> (r: bool)
        ensures
            r == (self@ is BlankNode || self@ is NamedNode),
    {
        match self {
            Term::BlankNode(_) => true,
            Term::NamedNode(_) => true,
            _ => false,
        }
    }

    /// Whether the term can stand as a predicate: a named node.
    pub fn is_predicate(&self) -> (r: bool)
        ensures
            r == self@ is NamedNode,
    {
        match self {
            Term::NamedNode(_) => true,
            _ => false,
        }
    }

    /// Whether the term is a variable.
    pub fn is_variable(&self) -> (r: bool)
        ensures
            r == self@ is Variable,
    {
        match self {
            Term::Variable(_) => true,
            _ => false,
        }
    }

    /// The kind of the term, as a word.
    pub fn ty(&self) -> (r: &'static str)
        ensures
            r@ == term_kind_name(self@),
    {
        match self {
            Term::Literal(_) => "literal",
            Term::BlankNode(_) => "blank node",
            Term::NamedNode(_) => "named node",
            Term::Collection(_) => "collection",
            Term::Invalid => "invalid",
            Term::Variable(_) => "variable",
        }
    }
}

} // verus!
