use lang_turtle::model::NamedNode;
use lang_turtle::token::Token;
use lang_turtle::lexer::parse_tokens_str;
use lang_turtle::model::Turtle;
use lang_turtle::parser::{parse_source, Ctx};
use lang_turtle::shacl::parse_usize;
use lang_turtle::triples::{decimal_string, TermKind};

#[test]
fn token_spans_are_in_order() {
    let text = "@prefix ex: <http://ex.org/> . ex:a ex:b 12. ex:c ex:d \"x\"@en ; ex:e ( 1 2 ) .";
    let (tokens, errors) = parse_tokens_str(text);
    assert!(errors.is_empty());
    for t in &tokens {
        assert!(t.1.start < t.1.end && t.1.end <= text.len());
    }
    for w in tokens.windows(2) {
        assert!(w[0].1.end <= w[1].1.start);
    }
}

#[test]
fn failed_ranges_are_in_order() {
    let txt = "<a> <b> <c> <d> . <e> <f> <g> . <h> <i> <j> <k> . <l> <m> <n> .";
    let tokens = parse_tokens_str(txt).0;
    let mut output = Turtle::empty("http://example.com/ns#");
    let failed = Ctx::new(&tokens).parse_turtle_retry(&mut output);
    assert_eq!(failed.len(), 2);
    assert_eq!(failed[0], 0..5);
    assert!(failed[0].end < failed[1].start);
    for r in &failed {
        assert!(r.start < r.end && r.end <= tokens.len() + 1);
    }
}

#[test]
fn derived_subjects_are_never_literals() {
    let txt = "@prefix ex: <http://ex.org/> .\nex:a ex:b ( \"x\" [ ex:c 1 ] ) , [ ex:d true ] .\n[ ex:e \"y\" ] ex:f ex:g .";
    let doc = parse_source("http://example.com/ns#", txt).unwrap();
    let triples = doc.get_simple_triples().unwrap();
    assert!(!triples.triples.is_empty());
    for q in &triples.triples {
        assert!(q.subject.ty != TermKind::Literal);
        assert!(q.predicate.ty == TermKind::NamedNode || q.predicate.ty == TermKind::Invalid);
    }
}

#[test]
fn decimal_counts_read_back() {
    for n in [0usize, 7, 10, 99, 1234567, usize::MAX] {
        assert_eq!(parse_usize(&decimal_string(n)), Some(n));
    }
}

#[test]
fn errors_are_invalid_tokens_and_tokens_cover_the_text() {
    let text = "<a> \u{a7}\u{a7} <b> .\n\t<c>";
    let (tokens, errors) = parse_tokens_str(text);
    assert_eq!(errors.len(), 1);
    let e = &errors[0];
    assert!(e.span.start < e.span.end && e.span.end <= text.len());
    assert!(tokens
        .iter()
        .any(|t| t.1 == e.span && t.0 == Token::Invalid(text[e.span.start..e.span.end].to_string())));
    for (i, c) in text.char_indices() {
        if !c.is_whitespace() {
            assert!(tokens.iter().any(|t| t.1.start <= i && i < t.1.end), "byte {} not covered", i);
        }
    }
    for w in tokens.windows(2) {
        assert!(w[0].1.end <= w[1].1.start);
    }
}

#[test]
fn prefix_cycle_does_not_expand() {
    let doc = parse_source("http://example.com/ns#", "@prefix p: q:1 .\n@prefix q: p:2 .\n").unwrap();
    let n = NamedNode::Prefixed { prefix: "p".to_string(), value: "x".to_string() };
    assert_eq!(n.expand(&doc), None);
    let ok = parse_source("http://example.com/ns#", "@prefix p: <http://a.org/> .\n@prefix q: p:b .\n").unwrap();
    let m = NamedNode::Prefixed { prefix: "q".to_string(), value: "x".to_string() };
    assert_eq!(m.expand(&ok).as_deref(), Some("http://a.org/bx"));
}
