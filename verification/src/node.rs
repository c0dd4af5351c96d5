//! A flat, index-linked form of a Turtle document: every node refers to its
//! children by position.
use crate::model::{Literal, NamedNode};
use crate::token::{Span, Spanned};
use vstd::prelude::*;

verus! {

/// A term without children.
#[derive(Clone, Debug)]
pub enum Leaf {
    Literal(Literal),
    NamedNode(NamedNode),
    BlankNode(String),
    Invalid,
}

/// How an editor highlights a token.
#[derive(Clone, Copy, Debug, PartialEq, Eq, Structural)]
pub enum HighlightKind {
    String,
    EnumMember,
    Number,
    Function,
}

impl Leaf {
    /// The highlighting of the leaf: strings and blank nodes as strings,
    /// booleans as enum members, numbers as numbers, named nodes as
    /// functions; none for an invalid leaf.
    pub fn token(&self) -> (r: Option<HighlightKind>)
        ensures
            r == match *self {
                Leaf::Literal(Literal::RDF(_)) => Some(HighlightKind::String),
                Leaf::Literal(Literal::Boolean(_)) => Some(HighlightKind::EnumMember),
                Leaf::Literal(Literal::Numeric(_)) => Some(HighlightKind::Number),
                Leaf::NamedNode(_) => Some(HighlightKind::Function),
                Leaf::BlankNode(_) => Some(HighlightKind::String),
                Leaf::Invalid => None,
            },
    {
        match self {
            Leaf::Literal(Literal::RDF(_)) => Some(HighlightKind::String),
            Leaf::Literal(Literal::Boolean(_)) => Some(HighlightKind::EnumMember),
            Leaf::Literal(Literal::Numeric(_)) => Some(HighlightKind::Number),
            Leaf::NamedNode(_) => Some(HighlightKind::Function),
            Leaf::BlankNode(_) => Some(HighlightKind::String),
            Leaf::Invalid => None,
        }
    }
}

/// A predicate and its objects, by node position.
#[derive(Clone, Debug)]
pub struct PO {
    pub predicate: usize,
    pub objects: Vec<usize>,
}

/// A node of the flat document.
#[derive(Clone, Debug)]
pub enum Node {
    Leaf(Leaf),
    Triple { subject: usize, po: Vec<PO> },
    BlankNode { po: Vec<PO> },
    Base(Span, usize),
    Prefix(Span, Spanned<String>, usize),
    Root(Vec<usize>),
    Collection(Vec<usize>),
    Invalid,
}

pub open spec fn node_kind_name(n: Node) -> Seq<char> {
    match n {
        Node::Leaf(Leaf::Invalid) => "leaf(invalid)"@,
        Node::Leaf(Leaf::Literal(_)) => "leaf(literal)"@,
        Node::Leaf(Leaf::NamedNode(_)) => "leaf(namednode)"@,
        Node::Leaf(Leaf::BlankNode(_)) => "leaf(blanknod)"@,
        Node::Triple { .. } => "triple"@,
        Node::BlankNode { .. } => "blanknode"@,
        Node::Base(_, _) => "base"@,
        Node::Prefix(_, _, _) => "prefix"@,
        Node::Root(_) => "root"@,
        Node::Collection(_) => "collection"@,
        Node::Invalid => "invalid"@,
    }
}

impl Node {
    /// The kind of the node, as a word.
    pub fn ty_str(&self) -> (r: &'static str)
        ensures
            r@ == node_kind_name(*self),
    {
        match self {
            Node::Leaf(Leaf::Invalid) => "leaf(invalid)",
            Node::Leaf(Leaf::Literal(_)) => "leaf(literal)",
            Node::Leaf(Leaf::NamedNode(_)) => "leaf(namednode)",
            Node::Leaf(Leaf::BlankNode(_)) => "leaf(blanknod)",
            Node::Triple { .. } => "triple",
            Node::BlankNode { .. } => "blanknode",
            Node::Base(_, _) => "base",
            Node::Prefix(_, _, _) => "prefix",
            Node::Root(_) => "root",
            Node::Collection(_) => "collection",
            Node::Invalid => "invalid",
        }
    }

    /// The leaf, if the node is one.
    pub fn leaf(&self) -> (r: Option<&Leaf>)
        ensures
            match *self {
                Node::Leaf(l) => r == Some(&l),
                _ => r is None,
            },
    {
        match self {
            Node::Leaf(leaf) => Some(leaf),
            _ => None,
        }
    }
}

} // verus!
