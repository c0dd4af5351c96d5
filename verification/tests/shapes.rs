use lang_turtle::completion::{Position, TextRange};
use lang_turtle::green::{ClassIds, ClassProvider, PropertyProvider, Range};
use lang_turtle::lexer::parse_tokens_str;
use lang_turtle::model::Turtle;
use lang_turtle::parser::Ctx;
use lang_turtle::shacl::{parse_shapes, Property, PropertyType, Shape};
use lang_turtle::shape_completion::ShapeCompletionProvider;
use lang_turtle::triples::TermKind;

fn parse_turtle(inp: &str, url: &str) -> Turtle {
    let tokens = parse_tokens_str(inp).0;
    let mut output = Turtle::empty(url);
    Ctx::new(&tokens).parse_turtle(&mut output);
    output
}

const SHAPES: &str = r#"
@prefix js: <https://w3id.org/conn/js#> .
@prefix xsd: <http://www.w3.org/2001/XMLSchema#> .
@prefix : <https://w3id.org/conn#> .
@prefix sh: <http://www.w3.org/ns/shacl#> .

<#testShape> a sh:NodeShape;
  sh:targetClass js:MumoFetch;
  sh:property [
    sh:class :WriterChannel;
    sh:path js:dataOutput;
    sh:minCount 1;
  ], [
    sh:datatype xsd:string;
    sh:path js:startUrl;
  ].
"#;

fn shape(props: Vec<Property>) -> Shape {
    Shape {
        name: None,
        clazz: Some("http://ex.org/C".to_string()),
        node: "http://ex.org/CShape".to_string(),
        properties: props,
        target_objects_of: Some("http://ex.org/objOf".to_string()),
        target_subjects_of: Some("http://ex.org/subjOf".to_string()),
    }
}

#[test]
fn shape_properties_in_order_with_targets() {
    let props = vec![
        Property {
            name: None,
            path: "http://ex.org/a".to_string(),
            ty: Some(PropertyType::Clazz("http://ex.org/D".to_string())),
            min_count: Some(2),
            max_count: None,
        },
        Property {
            name: None,
            path: "http://ex.org/b".to_string(),
            ty: Some(PropertyType::Primitive("xsd:string".to_string())),
            min_count: Some(0),
            max_count: None,
        },
        Property { name: None, path: "http://ex.org/c".to_string(), ty: None, min_count: None, max_count: None },
    ];
    let s = shape(props);
    let mut classes = ClassIds::new();
    let r = s.get_properties(&mut classes);
    // the class C (id 0) is recorded as a subclass of the node (id 1); the domain is C
    assert_eq!(classes.subclass_pairs(), &vec![(0, 1)]);
    assert_eq!(r.len(), 5);
    for p in &r[0..3] {
        assert_eq!(p.domain, 0);
    }
    assert_eq!(r[0].property.value, "http://ex.org/a");
    assert_eq!(r[0].property.ty, TermKind::NamedNode);
    assert!(r[0].required);
    assert!(matches!(r[0].range, Range::Class(2)));
    assert_eq!(classes.name_of(2), Some("http://ex.org/D"));
    assert!(!r[1].required);
    assert!(matches!(r[1].range, Range::Primitive("Some primitive")));
    assert!(!r[2].required);
    assert!(matches!(r[2].range, Range::Class(3)));
    assert_eq!(classes.name_of(3), None);
    // objects of objOf are instances of C
    assert_eq!(r[3].property.value, "http://ex.org/objOf");
    assert!(matches!(r[3].range, Range::Class(0)));
    assert_eq!(r[3].domain, 4);
    assert!(!r[3].required);
    // subjects of subjOf are instances of C
    assert_eq!(r[4].property.value, "http://ex.org/subjOf");
    assert_eq!(r[4].domain, 0);
    assert!(matches!(r[4].range, Range::Class(5)));
    assert_eq!(classes.len(), 6);
}

#[test]
fn ids_with_given_numbers() {
    let s = shape(vec![Property {
        name: None,
        path: "http://ex.org/a".to_string(),
        ty: None,
        min_count: Some(1),
        max_count: None,
    }]);
    let r = s.properties_with_ids(7, &vec![9], 11, 13);
    assert_eq!(r.len(), 3);
    assert_eq!(r[0].domain, 7);
    assert!(matches!(r[0].range, Range::Class(9)));
    assert!(r[0].required);
    assert_eq!(r[1].domain, 11);
    assert!(matches!(r[1].range, Range::Class(7)));
    assert_eq!(r[2].domain, 7);
    assert!(matches!(r[2].range, Range::Class(13)));
}

#[test]
fn named_classes_keep_their_ids() {
    let mut classes = ClassIds::new();
    assert_eq!(classes.named("http://ex.org/A"), 0);
    assert_eq!(classes.unnamed(None, "x"), 1);
    assert_eq!(classes.named("http://ex.org/B"), 2);
    assert_eq!(classes.named("http://ex.org/A"), 0);
    classes.add_subclass(0, 2);
    assert_eq!(classes.subclass_pairs(), &vec![(0, 2)]);
}

#[test]
fn shape_without_class_uses_node() {
    let s = Shape {
        name: None,
        clazz: None,
        node: "http://ex.org/N".to_string(),
        properties: vec![],
        target_objects_of: None,
        target_subjects_of: None,
    };
    let mut classes = ClassIds::new();
    let r = s.get_properties(&mut classes);
    assert!(r.is_empty());
    assert!(classes.subclass_pairs().is_empty());
    assert_eq!(classes.len(), 1);
    assert_eq!(classes.name_of(0), Some("http://ex.org/N"));
}

#[test]
fn provider_keeps_shapes_by_url() {
    let doc = parse_turtle(SHAPES, "http://example.com/ns");
    let triples = doc.get_simple_triples().expect("Triples found");
    let mut provider = ShapeCompletionProvider::default();
    let mut classes = ClassIds::new();
    let props = provider.provide(&triples, &mut classes);
    assert_eq!(props.len(), 2);
    assert_eq!(props[0].property.value, "https://w3id.org/conn/js#dataOutput");
    assert!(props[0].required);
    assert_eq!(props[1].property.value, "https://w3id.org/conn/js#startUrl");
    assert!(!props[1].required);

    let range = TextRange { start: Position { line: 0, character: 0 }, end: Position { line: 0, character: 0 } };
    let mut completions = Vec::new();
    provider.find_snippets("https://w3id.org/conn/js#MumoFetch", &doc, range, &mut completions);
    assert_eq!(completions.len(), 1);
    assert_eq!(completions[0].label, "js:MumoFetch (snippet)");

    // reading the same document again replaces its shapes
    provider.provide(&triples, &mut classes);
    let mut again = Vec::new();
    provider.find_snippets("https://w3id.org/conn/js#MumoFetch", &doc, range, &mut again);
    assert_eq!(again.len(), 1);

    // another document adds its own
    let other = parse_turtle(SHAPES, "http://example.com/other");
    let other_triples = other.get_simple_triples().expect("Triples found");
    provider.provide(&other_triples, &mut classes);
    let mut both = Vec::new();
    provider.find_snippets("https://w3id.org/conn/js#MumoFetch", &doc, range, &mut both);
    assert_eq!(both.len(), 2);

    let copy = provider.clone();
    let mut from_copy = Vec::new();
    copy.find_snippets("https://w3id.org/conn/js#MumoFetch", &doc, range, &mut from_copy);
    assert_eq!(from_copy.len(), 2);
    assert_eq!(parse_shapes(&triples).len(), 1);
}
