//! Carrying references to token positions across an edit: each reference
//! follows a walk over the changes between the old and the new tokens.
use crate::token::{Token, TokenV};
use vstd::prelude::*;

verus! {

/// Whether a change keeps, removes or adds a token.
#[derive(Clone, Copy, Debug, PartialEq, Eq, Structural)]
pub enum ChangeTag {
    Equal,
    Delete,
    Insert,
}

/// One change between an old and a new token sequence, with the positions
/// of the token in each.
#[derive(Clone, Debug)]
pub struct Change {
    pub tag: ChangeTag,
    pub old_index: Option<usize>,
    pub new_index: Option<usize>,
    pub value: Token,
}

/// A reference to a token position.
#[derive(Clone, Copy, Debug, PartialEq, Eq, Structural, PartialOrd, Ord)]
pub struct T {
    index: usize,
}

impl T {
    pub closed spec fn pos(self) -> usize {
        self.index
    }
}

/// A walk over a list of changes.
#[derive(Debug)]
pub struct Ctx {
    changes: Vec<Change>,
    at: usize,
}

impl Ctx {
    pub closed spec fn changes(&self) -> Seq<Change> {
        self.changes@
    }

    pub closed spec fn at(&self) -> int {
        self.at as int
    }

    /// Every kept token has its position in the new sequence.
    pub open spec fn wf(&self) -> bool {
        forall|i: int|
            0 <= i < self.changes().len() ==> (#[trigger] self.changes()[i]).tag == ChangeTag::Equal
                ==> self.changes()[i].new_index is Some
    }

    /// A walk at the start of `changes`.
    pub fn new(changes: Vec<Change>) -> (r: Ctx)
        ensures
            r.changes() == changes@,
            r.at() == 0,
    {
        Ctx { changes, at: 0 }
    }

    /// The change the walk is at, if any is left.
    pub fn peek(&self) -> (r: Option<&Change>)
        ensures
            r == (if 0 <= self.at() < self.changes().len() {
                Some(&self.changes()[self.at()])
            } else {
                None
            }),
    {
        if self.at < self.changes.len() {
            Some(&self.changes[self.at])
        } else {
            None
        }
    }

    /// Steps past the current change; gives its position.
    pub fn inc(&mut self) -> (r: T)
        requires
            old(self).at() < usize::MAX,
        ensures
            r.pos() == old(self).at(),
            final(self).at() == old(self).at() + 1,
            final(self).changes() == old(self).changes(),
    {
        let out = self.at;
        self.at = self.at + 1;
        T { index: out }
    }

    pub open spec fn tag_is(&self, tag: ChangeTag) -> bool {
        0 <= self.at() < self.changes().len() && self.changes()[self.at()].tag == tag
    }

    /// Whether the current change adds a token.
    pub fn insert(&self) -> (r: bool)
        ensures
            r == self.tag_is(ChangeTag::Insert),
    {
        match self.peek() {
            Some(c) => c.tag == ChangeTag::Insert,
            None => false,
        }
    }

    /// Whether the current change removes a token.
    pub fn delete(&self) -> (r: bool)
        ensures
            r == self.tag_is(ChangeTag::Delete),
    {
        match self.peek() {
            Some(c) => c.tag == ChangeTag::Delete,
            None => false,
        }
    }

    /// Whether the current change keeps a token.
    pub fn equal(&self) -> (r: bool)
        ensures
            r == self.tag_is(ChangeTag::Equal),
    {
        match self.peek() {
            Some(c) => c.tag == ChangeTag::Equal,
            None => false,
        }
    }
}

/// A term of a statement: missing, or a named node at a token position.
#[derive(Clone, Copy, Debug, PartialEq, Eq, Structural)]
enum Term {
    Missing,
    NamedNode(T),
}

/// The token can start a named node: an IRI, a prefixed name, or a token
/// that could not be read.
pub open spec fn names_node(t: TokenV) -> bool {
    t is IRIRef || t is PNameLN || t is Invalid
}

/// What applying the changes from position `at` does to a term: the new
/// term, the new position, and whether the term took part.
spec fn apply_spec(t: Term, cs: Seq<Change>, at: int) -> (Term, int, bool)
    decreases cs.len() - at,
{
    let here = 0 <= at < cs.len();
    match t {
        Term::Missing => if here && cs[at].tag == ChangeTag::Insert {
            if names_node(cs[at].value@) {
                (Term::NamedNode(T { index: at as usize }), at + 1, true)
            } else {
                (t, at, false)
            }
        } else {
            (t, at, false)
        },
        Term::NamedNode(_) => if here && cs[at].tag == ChangeTag::Equal {
            (Term::NamedNode(T { index: cs[at].new_index->0 }), at, true)
        } else if here && cs[at].tag == ChangeTag::Delete {
            let (t2, at2, _) = apply_spec(Term::Missing, cs, at + 1);
            (t2, at2, true)
        } else {
            (t, at, false)
        },
    }
}

impl Term {
    /// Follows the current change: a missing term takes an inserted node,
    /// a node follows a kept token to its new position, and a node whose
    /// token is removed becomes missing and may take what is inserted next.
    fn apply(&mut self, ctx: &mut Ctx) -> (r: bool)
        requires
            old(ctx).wf(),
            old(ctx).at() <= old(ctx).changes().len(),
            old(ctx).changes().len() < usize::MAX,
        ensures
            final(ctx).changes() == old(ctx).changes(),
            final(ctx).wf(),
            (*final(self), final(ctx).at(), r) == apply_spec(*old(self), old(ctx).changes(), old(ctx).at()),
        decreases old(ctx).changes().len() - old(ctx).at(),
    {
        match self {
            Term::Missing => {
                if ctx.insert() {
                    let names = match ctx.peek() {
                        Some(c) => match &c.value {
                            Token::IRIRef(_) | Token::PNameLN(_, _) | Token::Invalid(_) => true,
                            _ => false,
                        },
                        None => false,
                    };
                    if names {
                        *self = Term::NamedNode(ctx.inc());
                        true
                    } else {
                        false
                    }
                } else {
                    false
                }
            },
            Term::NamedNode(_) => {
                if ctx.equal() {
                    let c = ctx.peek().unwrap();
                    *self = Term::NamedNode(T { index: c.new_index.unwrap() });
                    true
                } else if ctx.delete() {
                    ctx.inc();
                    *self = Term::Missing;
                    self.apply(ctx);
                    true
                } else {
                    false
                }
            },
        }
    }

    fn is_empty(&self) -> (r: bool)
        ensures
            r == (*self == Term::Missing),
    {
        match self {
            Term::Missing => true,
            _ => false,
        }
    }
}

/// An object with the token position of the comma after it, if any.
#[derive(Clone, Debug)]
struct Object {
    object: Term,
    commad: Option<T>,
}

/// A predicate with its objects and the position of the `;` after it.
#[derive(Clone, Debug)]
struct PO {
    predicate: Term,
    objects: Vec<Object>,
    command: Option<T>,
}

impl PO {
    /// Follows the current change with the predicate.
    fn apply(&mut self, ctx: &mut Ctx)
        requires
            old(ctx).wf(),
            old(ctx).at() <= old(ctx).changes().len(),
            old(ctx).changes().len() < usize::MAX,
        ensures
            final(ctx).changes() == old(ctx).changes(),
            (final(self).predicate, final(ctx).at()) == ({
                let (t, at, _) = apply_spec(old(self).predicate, old(ctx).changes(), old(ctx).at());
                (t, at)
            }),
            final(self).objects == old(self).objects,
            final(self).command == old(self).command,
    {
        self.predicate.apply(ctx);
    }

    /// Nothing is left of the predicate-object.
    fn is_empty(&self) -> (r: bool)
        ensures
            r == (self.predicate == Term::Missing && self.objects@.len() == 0 && self.command is None),
    {
        if !self.predicate.is_empty() {
            return false;
        }
        if !(self.objects.len() == 0) {
            return false;
        }
        self.command.is_none()
    }
}

/// A subject with its predicate-objects.
#[derive(Clone, Debug)]
struct Triple {
    subject: Term,
    po: Vec<PO>,
}

impl Triple {
    /// Follows the current change with the subject.
    fn apply(&mut self, ctx: &mut Ctx)
        requires
            old(ctx).wf(),
            old(ctx).at() <= old(ctx).changes().len(),
            old(ctx).changes().len() < usize::MAX,
        ensures
            final(ctx).changes() == old(ctx).changes(),
            (final(self).subject, final(ctx).at()) == ({
                let (t, at, _) = apply_spec(old(self).subject, old(ctx).changes(), old(ctx).at());
                (t, at)
            }),
    {
        self.subject.apply(ctx);
    }
}

} // verus!
