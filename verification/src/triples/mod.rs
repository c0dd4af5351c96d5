//! The triples a Turtle document states, with blank nodes for the nested
//! predicate-object lists and collections.
pub mod spec;
pub mod builder;

use crate::token::Span;
use vstd::prelude::*;
use vstd::string::StringExecFns;

verus! {

/// The kind of an RDF term.
#[derive(Clone, Copy, Debug, PartialEq, Eq, Structural)]
pub enum TermKind {
    NamedNode,
    BlankNode,
    Literal,
    Variable,
    Invalid,
}

/// An RDF term with the source range it was read from.
#[derive(Clone, Debug)]
pub struct MyTerm {
    pub value: String,
    pub ty: TermKind,
    pub span: Span,
}

pub struct MyTermV {
    pub value: Seq<char>,
    pub ty: TermKind,
    pub span: Span,
}

impl View for MyTerm {
    type V = MyTermV;

    open spec fn view(&self) -> MyTermV {
        MyTermV { value: self.value@, ty: self.ty, span: self.span }
    }
}

pub open spec fn term_v(value: Seq<char>, ty: TermKind, span: Span) -> MyTermV {
    MyTermV { value, ty, span }
}

/// A triple with the source range it was stated in.
#[derive(Clone, Debug)]
pub struct MyQuad {
    pub subject: MyTerm,
    pub predicate: MyTerm,
    pub object: MyTerm,
    pub span: Span,
}

pub struct MyQuadV {
    pub subject: MyTermV,
    pub predicate: MyTermV,
    pub object: MyTermV,
    pub span: Span,
}

impl View for MyQuad {
    type V = MyQuadV;

    open spec fn view(&self) -> MyQuadV {
        MyQuadV {
            subject: self.subject@,
            predicate: self.predicate@,
            object: self.object@,
            span: self.span,
        }
    }
}

/// The triples of a document, its base IRI term and its location.
#[derive(Debug)]
pub struct Triples {
    pub triples: Vec<MyQuad>,
    pub base: Option<MyTerm>,
    pub base_url: String,
}

pub struct TriplesV {
    pub triples: Seq<MyQuadV>,
    pub base: Option<MyTermV>,
    pub base_url: Seq<char>,
}

impl View for Triples {
    type V = TriplesV;

    open spec fn view(&self) -> TriplesV {
        TriplesV {
            triples: self.triples@.map_values(|q: MyQuad| q@),
            base: match self.base {
                Some(b) => Some(b@),
                None => None,
            },
            base_url: self.base_url@,
        }
    }
}

/// The text of a term in N-Triples style: `<iri>`, `_:label`, `"literal"`,
/// `?variable` or `invalid`.
pub open spec fn my_term_text(t: MyTermV) -> Seq<char> {
    match t.ty {
        TermKind::NamedNode => "<"@ + t.value + ">"@,
        TermKind::BlankNode => "_:"@ + t.value,
        TermKind::Literal => "\""@ + t.value + "\""@,
        TermKind::Variable => "?"@ + t.value,
        TermKind::Invalid => "invalid"@,
    }
}

impl MyTerm {
    /// A named node with IRI `value`.
    pub fn named_node(value: &str, span: Span) -> (r: MyTerm)
        ensures
            r@ == term_v(value@, TermKind::NamedNode, span),
    {
        MyTerm { value: value.to_owned(), ty: TermKind::NamedNode, span }
    }

    /// A blank node labelled `value`.
    pub fn blank_node(value: &str, span: Span) -> (r: MyTerm)
        ensures
            r@ == term_v(value@, TermKind::BlankNode, span),
    {
        MyTerm { value: value.to_owned(), ty: TermKind::BlankNode, span }
    }

    /// A literal with lexical value `value`.
    pub fn literal(value: &str, span: Span) -> (r: MyTerm)
        ensures
            r@ == term_v(value@, TermKind::Literal, span),
    {
        MyTerm { value: value.to_owned(), ty: TermKind::Literal, span }
    }

    /// A variable named `value`.
    pub fn variable(value: &str, span: Span) -> (r: MyTerm)
        ensures
            r@ == term_v(value@, TermKind::Variable, span),
    {
        MyTerm { value: value.to_owned(), ty: TermKind::Variable, span }
    }

    /// A term that could not be read.
    pub fn invalid(span: Span) -> (r: MyTerm)
        ensures
            r@ == term_v(Seq::empty(), TermKind::Invalid, span),
    {
        MyTerm { value: String::new(), ty: TermKind::Invalid, span }
    }

    /// A copy of the term.
    pub fn duplicate(&self) -> (r: MyTerm)
        ensures
            r@ == self@,
    {
        MyTerm { value: self.value.clone(), ty: self.ty, span: self.span }
    }

    /// The term in N-Triples style.
    pub fn to_string(&self) -> (r: String)
        ensures
            r@ == my_term_text(self@),
    {
        match self.ty {
            TermKind::NamedNode => {
                let mut r = String::from_str("<");
                r.append(self.value.as_str());
                r.append(">");
                r
            },
            TermKind::BlankNode => {
                let mut r = String::from_str("_:");
                r.append(self.value.as_str());
                r
            },
            TermKind::Literal => {
                let mut r = String::from_str("\"");
                r.append(self.value.as_str());
                r.append("\"");
                r
            },
            TermKind::Variable => {
                let mut r = String::from_str("?");
                r.append(self.value.as_str());
                r
            },
            TermKind::Invalid => String::from_str("invalid"),
        }
    }
}

/// The decimal digits of `n`.
pub open spec fn decimal(n: nat) -> Seq<char>
    decreases n,
{
    if n < 10 {
        seq![digit_char(n)]
    } else {
        decimal(n / 10).push(digit_char(n % 10))
    }
}

pub open spec fn digit_char(d: nat) -> char {
    if d == 0 {
        '0'
    } else if d == 1 {
        '1'
    } else if d == 2 {
        '2'
    } else if d == 3 {
        '3'
    } else if d == 4 {
        '4'
    } else if d == 5 {
        '5'
    } else if d == 6 {
        '6'
    } else if d == 7 {
        '7'
    } else if d == 8 {
        '8'
    } else {
        '9'
    }
}

fn digit_of(d: usize) -> (r: char)
    requires
        d < 10,
    ensures
        r == digit_char(d as nat),
{
    if d == 0 {
        '0'
    } else if d == 1 {
        '1'
    } else if d == 2 {
        '2'
    } else if d == 3 {
        '3'
    } else if d == 4 {
        '4'
    } else if d == 5 {
        '5'
    } else if d == 6 {
        '6'
    } else if d == 7 {
        '7'
    } else if d == 8 {
        '8'
    } else {
        '9'
    }
}

/// The decimal text of `n`.
pub fn decimal_string(n: usize) -> (r: String)
    ensures
        r@ == decimal(n as nat),
    decreases n,
{
    if n < 10 {
        let mut r = String::new();
        r.push(digit_of(n));
        assert(r@ =~= seq![digit_char(n as nat)]);
        r
    } else {
        let mut r = decimal_string(n / 10);
        r.push(digit_of(n % 10));
        r
    }
}

} // verus!
