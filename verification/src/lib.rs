//! Turtle language support: tokenizer, parser, document model, triple
//! derivation and SHACL shape extraction.
pub mod token;
pub mod chars;
pub mod completion;
pub mod context;
pub mod document;
pub mod error;
pub mod green;
pub mod lexer;
pub mod lov;
pub mod text;
pub mod iri;
pub mod model;
pub mod model2;
pub mod node;
pub mod parser;
pub mod prefixes;
pub mod shacl;
pub mod shape_completion;
pub mod suggest;
pub mod triples;
pub mod utils;
pub mod vocab;
