use lang_turtle::completion::{CompletionKind, Position, TextRange};
use lang_turtle::lexer::parse_tokens_str;
use lang_turtle::model::Turtle;
use lang_turtle::parser::{parse_source, Ctx};
use lang_turtle::shacl::{find_snippets, parse_shape, parse_shapes, parse_usize, Property, PropertyType, Shape};
use lang_turtle::token::Span;
use lang_turtle::triples::MyTerm;

fn parse_turtle(inp: &str, url: &str) -> Turtle {
    let tokens = parse_tokens_str(inp).0;
    let mut output = Turtle::empty(url);
    Ctx::new(&tokens).parse_turtle(&mut output);
    output
}

const SHAPES: &str = r#"
@prefix js: <https://w3id.org/conn/js#> .
@prefix fno: <https://w3id.org/function/ontology#> .
@prefix fnom: <https://w3id.org/function/vocabulary/mapping#> .
@prefix xsd: <http://www.w3.org/2001/XMLSchema#> .
@prefix : <https://w3id.org/conn#> .
@prefix sh: <http://www.w3.org/ns/shacl#> .
@prefix owl: <http://www.w3.org/2002/07/owl#> .

<#testShape> a sh:NodeShape;
  sh:targetClass js:MumoFetch;
  sh:property [
    sh:class :WriterChannel;
    sh:path js:dataOutput;
    sh:name "Data output";
    sh:minCount 1;
    sh:maxCount 1;
  ], [
    sh:datatype xsd:string;
    sh:path js:startUrl;
    sh:name "Mumo start url";
    sh:minCount 1;
    sh:maxCount 1;
  ], [
    sh:datatype xsd:string;
    sh:path js:savePath;
    sh:name "Save path";
    sh:maxCount 1;
  ], [
    sh:datatype xsd:integer;
    sh:path js:intervalMs;
    sh:name "Interval";
    sh:maxCount 1;
  ].
"#;

#[test]
fn shacl_easy_triples() {
    let txt = SHAPES;

    let url = "http://example.com/ns";
    let output = parse_turtle(txt, url);
    let triples = output.get_simple_triples().expect("Triples found");

    let id = MyTerm::named_node("http://example.com/ns#testShape", Span { start: 0, end: 0 });
    let m_shape = parse_shape(&triples.triples, &id);
    assert!(m_shape.is_some());

    let shape = m_shape.unwrap();

    println!("Shape {:?}", shape);
    assert_eq!(shape.properties.len(), 4);
    assert_eq!(
        shape
            .properties
            .into_iter()
            .flat_map(|x| x.name)
            .collect::<Vec<_>>(),
        vec!["Data output", "Mumo start url", "Save path", "Interval"]
    );
}

#[test]
fn shapes_are_found_by_type() {
    let output = parse_turtle(SHAPES, "http://example.com/ns");
    let triples = output.get_simple_triples().expect("Triples found");
    let shapes = parse_shapes(&triples);
    assert_eq!(shapes.len(), 1);
    let shape = &shapes[0];
    assert_eq!(shape.node, "http://example.com/ns#testShape");
    assert_eq!(shape.clazz.as_deref(), Some("https://w3id.org/conn/js#MumoFetch"));
    assert_eq!(shape.name(), "https://w3id.org/conn/js#MumoFetch");
    let p = &shape.properties[0];
    assert_eq!(p.path, "https://w3id.org/conn/js#dataOutput");
    assert_eq!(p.min_count, Some(1));
    assert_eq!(p.max_count, Some(1));
    assert!(matches!(&p.ty, Some(PropertyType::Clazz(c)) if c == "https://w3id.org/conn#WriterChannel"));
    assert!(matches!(&shape.properties[1].ty, Some(PropertyType::Primitive(c)) if c == "http://www.w3.org/2001/XMLSchema#string"));
    assert_eq!(shape.properties[2].min_count, None);
}

#[test]
fn shape_snippet() {
    let output = parse_turtle(SHAPES, "http://example.com/ns");
    let triples = output.get_simple_triples().expect("Triples found");
    let shapes = parse_shapes(&triples);
    let range = TextRange {
        start: Position { line: 1, character: 2 },
        end: Position { line: 1, character: 5 },
    };
    let c = shapes[0].into_completion(&output, range).expect("class can be prefixed");
    assert_eq!(c.kind, CompletionKind::Snippet);
    assert_eq!(c.label, "js:MumoFetch (snippet)");
    assert_eq!(
        c.edits[0].new_text,
        "js:MumoFetch;\n    js:dataOutput ${1:Data output};\n    js:startUrl ${2:Mumo start url}."
    );
    assert_eq!(
        c.documentation.as_deref(),
        Some("Snippet for js:MumoFetch, with 2 reqruied properties (out of 4)")
    );
    let mut completions = Vec::new();
    find_snippets(&shapes, "https://w3id.org/conn/js#MumoFetch", &output, range, &mut completions);
    assert_eq!(completions.len(), 1);
    find_snippets(&shapes, "https://w3id.org/conn/js#Other", &output, range, &mut completions);
    assert_eq!(completions.len(), 1);
}

#[test]
fn property_completion_and_edit_part() {
    let doc = parse_source("http://example.com/ns#", "@prefix ex: <http://ex.org/> .\n").unwrap();
    let p = Property {
        name: None,
        path: "http://ex.org/p".to_string(),
        ty: None,
        min_count: Some(1),
        max_count: None,
    };
    let mut index = 4;
    assert_eq!(p.into_edit_part(&doc, &mut index), "ex:p $5");
    assert_eq!(index, 5);
    let q = Property { path: "http://other.org/q".to_string(), ..p.clone() };
    let range = TextRange { start: Position { line: 0, character: 0 }, end: Position { line: 0, character: 0 } };
    let c = q.into_completion(&doc, range);
    assert_eq!(c.label, "<http://other.org/q> (class property)");
    assert_eq!(c.filter_text.as_deref(), Some("<http://other.org/q>"));
    assert_eq!(c.kind, CompletionKind::Property);
}

#[test]
fn counts_read_as_usize() {
    assert_eq!(parse_usize("12"), Some(12));
    assert_eq!(parse_usize("+7"), Some(7));
    assert_eq!(parse_usize(""), None);
    assert_eq!(parse_usize("+"), None);
    assert_eq!(parse_usize("-1"), None);
    assert_eq!(parse_usize("1a"), None);
    assert_eq!(parse_usize("99999999999999999999999"), None);
}

#[test]
fn shape_name_prefers_the_class() {
    let s = Shape {
        name: None,
        clazz: None,
        node: "n".to_string(),
        properties: Vec::new(),
        target_objects_of: None,
        target_subjects_of: None,
    };
    assert_eq!(s.name(), "n");
    let s2 = Shape { clazz: Some("c".to_string()), ..s.clone() };
    assert_eq!(s2.name(), "c");
}
