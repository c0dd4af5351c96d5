//! Tokens produced by the Turtle tokenizer.
use vstd::prelude::*;

verus! {

/// A half-open byte range `start..end` into a source text.
#[derive(Clone, Copy, Debug, PartialEq, Eq, Structural, Hash)]
pub struct Span {
    pub start: usize,
    pub end: usize,
}

/// A value together with the source range it was read from.
#[derive(Clone, Debug)]
pub struct Spanned<T>(pub T, pub Span);

impl<T: View> View for Spanned<T> {
    type V = (T::V, Span);

    open spec fn view(&self) -> (T::V, Span) {
        (self.0@, self.1)
    }
}

impl<T> Spanned<T> {
    pub fn value(&self) -> (r: &T)
        ensures
            *r == self.0,
    {
        &self.0
    }

    pub fn span(&self) -> (r: &Span)
        ensures
            *r == self.1,
    {
        &self.1
    }
}

/// The quoting style of a string literal.
#[derive(Clone, Copy, Debug, PartialEq, Eq, Structural, Hash, PartialOrd, Ord)]
pub enum StringStyle {
    DoubleLong,
    Double,
    SingleLong,
    Single,
}

/// A Turtle token.
#[derive(Clone, Debug, Eq, Hash, PartialOrd, Ord)]
pub enum Token {
    PrefixTag,
    BaseTag,
    SparqlPrefix,
    SparqlBase,
    PredType,
    SqOpen,
    SqClose,
    BracketOpen,
    BracketClose,
    DataTypeDelim,
    Stop,
    PredicateSplit,
    Comma,
    True,
    False,
    ANON,
    IRIRef(String),
    PNameLN(Option<String>, String),
    BlankNodeLabel(String),
    LangTag(String),
    Number(String),
    Str(String, StringStyle),
    Comment(String),
    Variable(String),
    Invalid(String),
}

/// The mathematical view of a token: its strings as character sequences.
pub enum TokenV {
    PrefixTag,
    BaseTag,
    SparqlPrefix,
    SparqlBase,
    PredType,
    SqOpen,
    SqClose,
    BracketOpen,
    BracketClose,
    DataTypeDelim,
    Stop,
    PredicateSplit,
    Comma,
    True,
    False,
    ANON,
    IRIRef(Seq<char>),
    PNameLN(Option<Seq<char>>, Seq<char>),
    BlankNodeLabel(Seq<char>),
    LangTag(Seq<char>),
    Number(Seq<char>),
    Str(Seq<char>, StringStyle),
    Comment(Seq<char>),
    Variable(Seq<char>),
    Invalid(Seq<char>),
}

impl View for Token {
    type V = TokenV;

    open spec fn view(&self) -> TokenV {
        match self {
            Token::PrefixTag => TokenV::PrefixTag,
            Token::BaseTag => TokenV::BaseTag,
            Token::SparqlPrefix => TokenV::SparqlPrefix,
            Token::SparqlBase => TokenV::SparqlBase,
            Token::PredType => TokenV::PredType,
            Token::SqOpen => TokenV::SqOpen,
            Token::SqClose => TokenV::SqClose,
            Token::BracketOpen => TokenV::BracketOpen,
            Token::BracketClose => TokenV::BracketClose,
            Token::DataTypeDelim => TokenV::DataTypeDelim,
            Token::Stop => TokenV::Stop,
            Token::PredicateSplit => TokenV::PredicateSplit,
            Token::Comma => TokenV::Comma,
            Token::True => TokenV::True,
            Token::False => TokenV::False,
            Token::ANON => TokenV::ANON,
            Token::IRIRef(s) => TokenV::IRIRef(s@),
            Token::PNameLN(p, l) => TokenV::PNameLN(
                match p {
                    Some(p) => Some(p@),
                    None => None,
                },
                l@,
            ),
            Token::BlankNodeLabel(s) => TokenV::BlankNodeLabel(s@),
            Token::LangTag(s) => TokenV::LangTag(s@),
            Token::Number(s) => TokenV::Number(s@),
            Token::Str(s, st) => TokenV::Str(s@, *st),
            Token::Comment(s) => TokenV::Comment(s@),
            Token::Variable(s) => TokenV::Variable(s@),
            Token::Invalid(s) => TokenV::Invalid(s@),
        }
    }
}

impl Token {
    /// A copy of the token.
    pub fn duplicate(&self) -> (r: Token)
        ensures
            r@ == self@,
    {
        match self {
            Token::PrefixTag => Token::PrefixTag,
            Token::BaseTag => Token::BaseTag,
            Token::SparqlPrefix => Token::SparqlPrefix,
            Token::SparqlBase => Token::SparqlBase,
            Token::PredType => Token::PredType,
            Token::SqOpen => Token::SqOpen,
            Token::SqClose => Token::SqClose,
            Token::BracketOpen => Token::BracketOpen,
            Token::BracketClose => Token::BracketClose,
            Token::DataTypeDelim => Token::DataTypeDelim,
            Token::Stop => Token::Stop,
            Token::PredicateSplit => Token::PredicateSplit,
            Token::Comma => Token::Comma,
            Token::True => Token::True,
            Token::False => Token::False,
            Token::ANON => Token::ANON,
            Token::IRIRef(s) => Token::IRIRef(s.clone()),
            Token::PNameLN(p, l) => Token::PNameLN(
                match p {
                    Some(p) => Some(p.clone()),
                    None => None,
                },
                l.clone(),
            ),
            Token::BlankNodeLabel(s) => Token::BlankNodeLabel(s.clone()),
            Token::LangTag(s) => Token::LangTag(s.clone()),
            Token::Number(s) => Token::Number(s.clone()),
            Token::Str(s, st) => Token::Str(s.clone(), *st),
            Token::Comment(s) => Token::Comment(s.clone()),
            Token::Variable(s) => Token::Variable(s.clone()),
            Token::Invalid(s) => Token::Invalid(s.clone()),
        }
    }

    /// The token is a comment.
    pub fn is_comment(&self) -> (r: bool)
        ensures
            r == (self@ is Comment),
    {
        match self {
            Token::Comment(_) => true,
            _ => false,
        }
    }
}

impl PartialEq for Token {
    fn eq(&self, other: &Token) -> (r: bool) {
        match (self, other) {
            (Token::PrefixTag, Token::PrefixTag) => true,
            (Token::BaseTag, Token::BaseTag) => true,
            (Token::SparqlPrefix, Token::SparqlPrefix) => true,
            (Token::SparqlBase, Token::SparqlBase) => true,
            (Token::PredType, Token::PredType) => true,
            (Token::SqOpen, Token::SqOpen) => true,
            (Token::SqClose, Token::SqClose) => true,
            (Token::BracketOpen, Token::BracketOpen) => true,
            (Token::BracketClose, Token::BracketClose) => true,
            (Token::DataTypeDelim, Token::DataTypeDelim) => true,
            (Token::Stop, Token::Stop) => true,
            (Token::PredicateSplit, Token::PredicateSplit) => true,
            (Token::Comma, Token::Comma) => true,
            (Token::True, Token::True) => true,
            (Token::False, Token::False) => true,
            (Token::ANON, Token::ANON) => true,
            (Token::IRIRef(a), Token::IRIRef(b)) => *a == *b,
            (Token::PNameLN(pa, la), Token::PNameLN(pb, lb)) => {
                let pe = match (pa, pb) {
                    (Some(x), Some(y)) => *x == *y,
                    (None, None) => true,
                    _ => false,
                };
                pe && *la == *lb
            },
            (Token::BlankNodeLabel(a), Token::BlankNodeLabel(b)) => *a == *b,
            (Token::LangTag(a), Token::LangTag(b)) => *a == *b,
            (Token::Number(a), Token::Number(b)) => *a == *b,
            (Token::Str(a, sa), Token::Str(b, sb)) => *a == *b && *sa == *sb,
            (Token::Comment(a), Token::Comment(b)) => *a == *b,
            (Token::Variable(a), Token::Variable(b)) => *a == *b,
            (Token::Invalid(a), Token::Invalid(b)) => *a == *b,
            _ => false,
        }
    }
}

impl vstd::std_specs::cmp::PartialEqSpecImpl for Token {
    open spec fn obeys_eq_spec() -> bool {
        true
    }

    open spec fn eq_spec(&self, other: &Token) -> bool {
        self@ == other@
    }
}

} // verus!
