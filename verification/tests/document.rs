use lang_turtle::document::DocState;
use lang_turtle::lexer::parse_tokens_str;
use lang_turtle::model::{Literal, NamedNode};
use lang_turtle::node::{HighlightKind, Leaf, Node};
use lang_turtle::token::Span;
use lang_turtle::utils::PropertyType;
use lang_turtle::completion::CompletionKind;

#[test]
fn step_keeps_the_tokens_and_reports_failures() {
    let mut state = DocState::new();
    let tokens = parse_tokens_str("<a> <b> <c> . <d> <e> <f> <g> . <h> <i> <j> .").0;
    let parsed = state.parse_turtle_step(&tokens, "http://example.com/ns#");
    // `<d> <e> <f>` misses its `.` (at `<g>`); `<g> .` misses its predicate
    // and object: both are kept, with invalid terms
    assert_eq!(parsed.turtle.triples.len(), 4);
    assert_eq!(parsed.turtle.triples[1].0.to_string(), "<d> <e> <f>.");
    assert_eq!(parsed.turtle.triples[2].0.to_string(), "<g> invalid invalid.");
    assert_eq!(parsed.failed, vec![7..7, 8..8, 8..8]);
    assert!(parsed.dirty);
    assert_eq!(state.tokens.len(), tokens.len());
    assert!(state.context.ctx().find_was(0).is_none());
    assert_eq!(parsed.previous, vec![None; tokens.len()]);

    let tokens2 = parse_tokens_str("<a> <b> <c> .").0;
    let parsed2 = state.parse_turtle_step(&tokens2, "http://example.com/ns#");
    assert_eq!(parsed2.turtle.triples.len(), 1);
    assert!(!parsed2.dirty);
    assert_eq!(state.tokens.len(), 4);
    assert_eq!(parsed2.previous, vec![Some(0), Some(1), Some(2), Some(3)]);
}

#[test]
fn statement_without_its_stop_is_kept() {
    let mut state = DocState::new();
    let tokens = parse_tokens_str("<a> <b> <c>").0;
    let parsed = state.parse_turtle_step(&tokens, "http://example.com/ns#");
    assert_eq!(parsed.turtle.triples.len(), 1);
    assert_eq!(parsed.turtle.triples[0].0.to_string(), "<a> <b> <c>.");
    assert_eq!(parsed.failed, vec![3..3]);

    // an edit in front: the old tokens are found again, shifted
    let tokens2 = parse_tokens_str("<x> <y> <z> . <a> <b> <c>").0;
    let parsed2 = state.parse_turtle_step(&tokens2, "http://example.com/ns#");
    assert_eq!(parsed2.turtle.triples.len(), 2);
    assert_eq!(parsed2.previous[4..7].to_vec(), vec![Some(0), Some(1), Some(2)]);
    assert_eq!(parsed2.previous[0], None);
}

#[test]
fn node_kinds() {
    assert_eq!(Node::Invalid.ty_str(), "invalid");
    assert_eq!(Node::Leaf(Leaf::BlankNode("b".to_string())).ty_str(), "leaf(blanknod)");
    assert_eq!(Node::Base(Span { start: 0, end: 1 }, 3).ty_str(), "base");
    assert_eq!(Node::Root(vec![1, 2]).ty_str(), "root");
    assert!(Node::Root(vec![]).leaf().is_none());
    assert!(Node::Leaf(Leaf::Invalid).leaf().is_some());
}

#[test]
fn leaf_highlighting() {
    assert_eq!(Leaf::Literal(Literal::Boolean(true)).token(), Some(HighlightKind::EnumMember));
    assert_eq!(Leaf::Literal(Literal::Numeric("1".to_string())).token(), Some(HighlightKind::Number));
    assert_eq!(Leaf::NamedNode(NamedNode::A).token(), Some(HighlightKind::Function));
    assert_eq!(Leaf::Invalid.token(), None);
}

#[test]
fn property_types_as_completion_kinds() {
    assert_eq!(PropertyType::default(), PropertyType::Property);
    assert_eq!(PropertyType::Class.completion_kind(), CompletionKind::Class);
    assert_eq!(PropertyType::ObjectProperty.completion_kind(), CompletionKind::Property);
    assert_eq!(PropertyType::DatatypeProperty.completion_kind(), CompletionKind::Property);
}
