//! The kinds of vocabulary terms offered as completions.
use crate::completion::CompletionKind;
use vstd::prelude::*;

verus! {

/// What a vocabulary term is: a class or some kind of property.
#[derive(Clone, Copy, Debug, PartialEq, Eq, Structural)]
pub enum PropertyType {
    Class,
    DatatypeProperty,
    ObjectProperty,
    Property,
}

impl Default for PropertyType {
    fn default() -> (r: PropertyType)
        ensures
            r == PropertyType::Property,
    {
        PropertyType::Property
    }
}

impl PropertyType {
    /// The completion kind for a term of this type: a class is offered as a
    /// class, every kind of property as a property.
    pub fn completion_kind(self) -> (r: CompletionKind)
        ensures
            r == (if self == PropertyType::Class {
                CompletionKind::Class
            } else {
                CompletionKind::Property
            }),
    {
        match self {
            PropertyType::Class => CompletionKind::Class,
            PropertyType::DatatypeProperty => CompletionKind::Property,
            PropertyType::ObjectProperty => CompletionKind::Property,
            PropertyType::Property => CompletionKind::Property,
        }
    }
}

} // verus!
