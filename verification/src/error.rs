//! A message about a range of a document.
use crate::token::Span;
use vstd::prelude::*;

verus! {

/// A message about the byte range `span` of a document.
#[derive(Debug, Clone)]
pub struct Error {
    pub msg: String,
    pub span: Span,
}

} // verus!
