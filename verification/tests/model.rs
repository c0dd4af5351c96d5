use std::collections::HashSet;

use lang_turtle::lexer::parse_tokens_str;
use lang_turtle::model::spans::rev_range;
use lang_turtle::model::{Literal, NamedNode, RDFLiteral, Turtle};
use lang_turtle::parser::{parse_source, Ctx};
use lang_turtle::token::{Span, StringStyle};
use lang_turtle::triples::MyQuad;

fn parse_turtle(inp: &str, url: &str) -> Turtle {
    let tokens = parse_tokens_str(inp).0;
    let mut output = Turtle::empty(url);
    Ctx::new(&tokens).parse_turtle(&mut output);
    output
}

#[test]
fn model_easy_triples() {
    let txt = r#"
@prefix rdf: <http://www.w3.org/1999/02/22-rdf-syntax-ns#> .
@prefix foaf: <http://xmlns.com/foaf/0.1/> .
# @base <http://www.w3.org/1999/02/22-rdf-syntax-ns#> .

[] a foaf:Name;
   foaf:knows <abc>;.
"#;

    let url = "http://example.com/ns#";
    let output = parse_turtle(txt, url);
    let triples = output.get_simple_triples().expect("Triples found");

    assert_eq!(triples.triples.len(), 3);
    println!("{:?}", triples);
}

#[test]
fn easy_triples_2() {
    let txt = r#"
@prefix rdf: <http://www.w3.org/1999/02/22-rdf-syntax-ns#> .
@prefix foaf: <http://xmlns.com/foaf/0.1/> .
# @base <http://www.w3.org/1999/02/22-rdf-syntax-ns#> .

[ foaf:knows <abc>; ] 
    a foaf:Name;
    foaf:knows [
        a foaf:Name;
        foaf:knows [
            a foaf:Name; ] ].
"#;

    let url = "http://example.com/ns#";
    let output = parse_turtle(txt, url);
    let triples = output.get_simple_triples().expect("Triples found");

    assert_eq!(triples.triples.len(), 6);
}

#[test]
fn triples_collection() {
    let txt = r#"
<e> <pred> (<a> <b> <c>).
"#;

    let url = "http://example.com/ns#";
    let output = parse_turtle(txt, url);
    let triples = output.get_simple_triples().expect("Triples found");

    let a: &Vec<MyQuad> = &triples.triples;

    let quads: HashSet<String> = a
        .iter()
        .map(|triple| {
            format!(
                "{} {} {}.",
                triple.subject.to_string(),
                triple.predicate.to_string(),
                triple.object.to_string()
            )
        })
        .collect();

    let expected_quads: HashSet<String> = "<http://example.com/e> <http://example.com/pred> _:internal_bnode_3.
_:internal_bnode_3 <http://www.w3.org/1999/02/22-rdf-syntax-ns#rest> _:internal_bnode_2.
_:internal_bnode_3 <http://www.w3.org/1999/02/22-rdf-syntax-ns#first> <http://example.com/a>.
_:internal_bnode_2 <http://www.w3.org/1999/02/22-rdf-syntax-ns#rest> _:internal_bnode_1.
_:internal_bnode_2 <http://www.w3.org/1999/02/22-rdf-syntax-ns#first> <http://example.com/b>.
_:internal_bnode_1 <http://www.w3.org/1999/02/22-rdf-syntax-ns#rest> <http://www.w3.org/1999/02/22-rdf-syntax-ns#nil>.
_:internal_bnode_1 <http://www.w3.org/1999/02/22-rdf-syntax-ns#first> <http://example.com/c>.".split("\n").map(|x|x.trim()).map(String::from).collect();

    for t in &quads {
        println!("{}", t);
    }
    assert_eq!(quads, expected_quads);

    println!("triples {:?}", triples);

    assert_eq!(triples.triples.len(), 7);
}

#[test]
fn plain_strings() {
    let l = RDFLiteral {
        value: "hello".to_string(),
        quote_style: StringStyle::Double,
        lang: Some("en".to_string()),
        ty: None,
    };
    assert_eq!(l.plain_string(), "hello");
    assert_eq!(Literal::RDF(l.clone()).plain_string(), "hello");
    assert_eq!(Literal::Boolean(true).plain_string(), "true");
    assert_eq!(Literal::Boolean(false).plain_string(), "false");
    assert_eq!(Literal::Numeric("4.2".to_string()).plain_string(), "4.2");
}

#[test]
fn literal_rendering() {
    let l = RDFLiteral {
        value: "v".to_string(),
        quote_style: StringStyle::SingleLong,
        lang: Some("en".to_string()),
        ty: Some(NamedNode::Prefixed { prefix: "xsd".to_string(), value: "string".to_string() }),
    };
    assert_eq!(l.to_string(), "'''v'''@en^^xsd:string");
    let l2 = RDFLiteral { value: "v".to_string(), quote_style: StringStyle::Double, lang: None, ty: None };
    assert_eq!(l2.to_string(), "\"v\"");
    assert_eq!(NamedNode::Full("x".to_string()).to_string(), "<x>");
    assert_eq!(NamedNode::A.to_string(), "a");
    assert_eq!(NamedNode::Invalid.to_string(), "invalid");
}

#[test]
fn document_rendering() {
    let txt = "@prefix ex: <http://ex.org/> .\nex:a ex:b [ ex:c ( 1 true ) ] , \"x\" ; ex:d _:b .";
    let doc = parse_source("http://example.com/ns#", txt).expect("parses");
    assert_eq!(
        doc.to_string(),
        "@prefix ex: <http://ex.org/> .\nex:a ex:b [ ex:c ( 1true  ) ; ], \"x\"; ex:d _:_:b.\n"
    );
}

#[test]
fn expansion_follows_prefixes() {
    let doc = parse_source("http://example.com/ns#", "@prefix ex: <http://ex.org/> .\nex:a ex:b ex:c .").unwrap();
    let nn = NamedNode::Prefixed { prefix: "ex".to_string(), value: "thing".to_string() };
    assert_eq!(nn.expand_step(&doc, Vec::new()), Some("http://ex.org/thing".to_string()));
    assert_eq!(nn.expand(&doc), Some("http://ex.org/thing".to_string()));
    let missing = NamedNode::Prefixed { prefix: "nope".to_string(), value: "thing".to_string() };
    assert_eq!(missing.expand_step(&doc, Vec::new()), None);
    assert_eq!(
        NamedNode::A.expand_step(&doc, Vec::new()),
        Some("http://www.w3.org/1999/02/22-rdf-syntax-ns#type".to_string())
    );
    assert_eq!(
        NamedNode::Full("rel".to_string()).expand(&doc),
        Some("http://example.com/rel".to_string())
    );
}

#[test]
fn expansion_stops_on_a_loop() {
    let doc = parse_source(
        "http://example.com/ns#",
        "@prefix a: b:x .\n@prefix b: a:y .\n<s> <p> <o> .",
    )
    .expect("parses");
    let nn = NamedNode::Prefixed { prefix: "a".to_string(), value: "z".to_string() };
    assert_eq!(nn.expand_step(&doc, Vec::new()), None);
}

#[test]
fn shorten_uses_the_first_matching_prefix() {
    let doc = parse_source(
        "http://example.com/ns#",
        "@prefix foaf: <http://xmlns.com/foaf/0.1/> .\n@prefix ex: <http://ex.org/> .\n<s> <p> <o> .",
    )
    .unwrap();
    assert_eq!(doc.shorten("http://ex.org/thing"), Some("ex:thing".to_string()));
    assert_eq!(doc.shorten("http://xmlns.com/foaf/0.1/name"), Some("foaf:name".to_string()));
    assert_eq!(doc.shorten("http://other.org/x"), None);
}

#[test]
fn rev_range_mirrors() {
    let s = Span { start: 2, end: 5 };
    let r = rev_range(&s, 10);
    assert_eq!(r, Span { start: 5, end: 8 });
    assert_eq!(rev_range(&r, 10), s);
}

#[test]
fn fix_spans_twice_restores() {
    let txt = "<a> <b> [ <c> ( <d> ) ] .";
    let mut doc = parse_source("http://example.com/ns#", txt).unwrap();
    let before = format!("{:?}", doc);
    doc.fix_spans(txt.len());
    assert_eq!(doc.triples[0].1, Span { start: 0, end: txt.len() });
    assert_eq!(doc.triples[0].0.subject.1, Span { start: txt.len() - 3, end: txt.len() });
    doc.fix_spans(txt.len());
    assert_eq!(format!("{:?}", doc), before);
}

#[test]
fn base_is_resolved_against_the_location() {
    let doc = parse_source("http://example.com/dir/doc.ttl", "@base <other/> .\n<a> <b> <c> .").unwrap();
    let t = Turtle::new(doc.base.clone(), Vec::new(), Vec::new(), "http://example.com/dir/doc.ttl");
    match &t.base.as_ref().unwrap().0 .1 .0 {
        NamedNode::Full(s) => assert_eq!(s, "http://example.com/dir/other/"),
        _ => panic!("full IRI expected"),
    }
    assert_eq!(t.get_base(), "http://example.com/dir/doc.ttl");
}

#[test]
fn triples_resolve_against_the_base() {
    let doc = parse_source(
        "http://example.com/ns#",
        "@base <http://base.org/x/> .\n<a> <b> \"lit\" .",
    )
    .unwrap();
    let triples = doc.get_simple_triples().unwrap();
    assert_eq!(triples.triples.len(), 1);
    assert_eq!(triples.triples[0].subject.value, "http://base.org/x/a");
    assert_eq!(triples.triples[0].object.value, "lit");
    assert_eq!(triples.base.as_ref().unwrap().value, "http://base.org/x/");
    assert_eq!(triples.base_url, "http://example.com/ns#");
}

#[test]
fn triples_refuse_a_collection_subject() {
    let doc = parse_source("http://example.com/ns#", "( <a> ) <b> <c> .").unwrap();
    match doc.get_simple_triples() {
        Err(lang_turtle::triples::builder::TurtleSimpleError::UnexpectedBaseString(m)) => {
            assert_eq!(m, "Unexpected collection")
        }
        _ => panic!("error expected"),
    }
}

#[test]
fn triples_refuse_an_unknown_prefix() {
    let doc = parse_source("http://example.com/ns#", "ex:a <b> <c> .").unwrap();
    match doc.get_simple_triples() {
        Err(lang_turtle::triples::builder::TurtleSimpleError::UnexpectedBase(m)) => {
            assert_eq!(m, "Expected valid named node for object")
        }
        _ => panic!("error expected"),
    }
}

#[test]
fn triples_refuse_a_relative_location() {
    let doc = parse_source("not a url", "<a> <b> <c> .").unwrap();
    assert!(matches!(
        doc.get_simple_triples(),
        Err(lang_turtle::triples::builder::TurtleSimpleError::Parse(_))
    ));
}
