//! Vocabularies that ship with the server.
use vstd::prelude::*;

verus! {

/// A vocabulary: where it lives, its Turtle text, its usual prefix and its
/// title.
pub struct LocalPrefix {
    pub location: &'static str,
    pub content: &'static str,
    pub name: &'static str,
    pub title: &'static str,
}

} // verus!
