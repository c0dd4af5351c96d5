//! Completion items, as plain values that an editor protocol layer turns
//! into its own messages.
use vstd::prelude::*;

verus! {

/// The kind of a completion item.
#[derive(Clone, Copy, Debug, PartialEq, Eq, Structural)]
pub enum CompletionKind {
    Class,
    Property,
    Module,
    Snippet,
}

/// A position in a text: zero-based line and character.
#[derive(Clone, Copy, Debug, PartialEq, Eq, Structural)]
pub struct Position {
    pub line: u32,
    pub character: u32,
}

/// A range in a text.
#[derive(Clone, Copy, Debug, PartialEq, Eq, Structural)]
pub struct TextRange {
    pub start: Position,
    pub end: Position,
}

/// Replace `range` by `new_text`.
#[derive(Clone, Debug)]
pub struct TextEdit {
    pub new_text: String,
    pub range: TextRange,
}

pub struct TextEditV {
    pub new_text: Seq<char>,
    pub range: TextRange,
}

impl View for TextEdit {
    type V = TextEditV;

    open spec fn view(&self) -> TextEditV {
        TextEditV { new_text: self.new_text@, range: self.range }
    }
}

/// A completion item: what is shown, how it is filtered and sorted, and the
/// edits it makes.
#[derive(Clone, Debug)]
pub struct SimpleCompletion {
    pub kind: CompletionKind,
    pub label: String,
    pub documentation: Option<String>,
    pub sort_text: Option<String>,
    pub filter_text: Option<String>,
    pub edits: Vec<TextEdit>,
}

pub struct SimpleCompletionV {
    pub kind: CompletionKind,
    pub label: Seq<char>,
    pub documentation: Option<Seq<char>>,
    pub sort_text: Option<Seq<char>>,
    pub filter_text: Option<Seq<char>>,
    pub edits: Seq<TextEditV>,
}

pub open spec fn opt_text(o: Option<String>) -> Option<Seq<char>> {
    match o {
        Some(s) => Some(s@),
        None => None,
    }
}

impl View for SimpleCompletion {
    type V = SimpleCompletionV;

    open spec fn view(&self) -> SimpleCompletionV {
        SimpleCompletionV {
            kind: self.kind,
            label: self.label@,
            documentation: opt_text(self.documentation),
            sort_text: opt_text(self.sort_text),
            filter_text: opt_text(self.filter_text),
            edits: self.edits@.map_values(|e: TextEdit| e@),
        }
    }
}

} // verus!
