use lang_turtle::completion::{CompletionKind, Position, TextRange};
use lang_turtle::parser::parse_source;
use lang_turtle::token::Span;
use lang_turtle::triples::{MyQuad, MyTerm};
use lang_turtle::vocab::{
    complete_class, complete_properties, turtle_prefix_completion, undefined_prefix_edit,
    DefinedClass, DefinedProperty, TripleTarget,
};

const DOC: &str = "@prefix foaf: <http://xmlns.com/foaf/0.1/> .\n@prefix ex: <http://example.com/> .\n<a> a foaf:Pe .\n";
const RDF_TYPE: &str = "http://www.w3.org/1999/02/22-rdf-syntax-ns#type";

fn range() -> TextRange {
    TextRange { start: Position { line: 2, character: 6 }, end: Position { line: 2, character: 13 } }
}

fn nn(v: &str) -> MyTerm {
    MyTerm::named_node(v, Span { start: 0, end: 0 })
}

fn quad(p: &str) -> MyQuad {
    MyQuad { subject: nn("http://example.com/a"), predicate: nn(p), object: nn("x"), span: Span { start: 0, end: 0 } }
}

fn classes() -> Vec<(String, Vec<DefinedClass>)> {
    vec![
        (
            "http://xmlns.com/foaf/0.1/".to_string(),
            vec![
                DefinedClass { term: nn("http://xmlns.com/foaf/0.1/Person"), comment: "A person.".to_string() },
                DefinedClass { term: nn("http://xmlns.com/foaf/0.1/Agent"), comment: "An agent.".to_string() },
                DefinedClass { term: nn("http://other.org/Pet"), comment: "A pet.".to_string() },
            ],
        ),
        (
            "http://unlinked.org/".to_string(),
            vec![DefinedClass { term: nn("http://xmlns.com/foaf/0.1/PersonalProfileDocument"), comment: String::new() }],
        ),
    ]
}

#[test]
fn classes_of_linked_vocabularies_complete_a_type() {
    let doc = parse_source("http://example.com/doc", DOC).unwrap();
    let links = vec!["http://xmlns.com/foaf/0.1/".to_string()];
    let mut req = Vec::new();
    complete_class("foaf:Pe", range(), &quad(RDF_TYPE), TripleTarget::Object, &doc, &links, &classes(), &mut req);
    assert_eq!(req.len(), 1);
    assert_eq!(req[0].kind, CompletionKind::Class);
    assert_eq!(req[0].label, "foaf:Person");
    assert_eq!(req[0].documentation.as_deref(), Some("A person."));
    assert_eq!(req[0].edits[0].new_text, "foaf:Person");
    assert_eq!(req[0].edits[0].range, range());

    // an IRI that no prefix shortens is written in full
    let mut full = Vec::new();
    complete_class("http://other", range(), &quad(RDF_TYPE), TripleTarget::Object, &doc, &links, &classes(), &mut full);
    assert_eq!(full.len(), 1);
    assert_eq!(full[0].label, "http://other.org/Pet");
}

#[test]
fn classes_only_for_objects_of_type() {
    let doc = parse_source("http://example.com/doc", DOC).unwrap();
    let links = vec!["http://xmlns.com/foaf/0.1/".to_string()];
    let mut req = Vec::new();
    complete_class("foaf:", range(), &quad("http://example.com/p"), TripleTarget::Object, &doc, &links, &classes(), &mut req);
    complete_class("foaf:", range(), &quad(RDF_TYPE), TripleTarget::Subject, &doc, &links, &classes(), &mut req);
    assert!(req.is_empty());
    // unlinked vocabularies give nothing
    complete_class("foaf:", range(), &quad(RDF_TYPE), TripleTarget::Object, &doc, &vec![], &classes(), &mut req);
    assert!(req.is_empty());
}

#[test]
fn properties_complete_a_predicate() {
    let doc = parse_source("http://example.com/doc", DOC).unwrap();
    let links = vec!["http://xmlns.com/foaf/0.1/".to_string()];
    let defined = vec![(
        "http://xmlns.com/foaf/0.1/".to_string(),
        vec![
            DefinedProperty { predicate: nn("http://xmlns.com/foaf/0.1/name"), comment: "A name.".to_string() },
            DefinedProperty { predicate: nn("http://xmlns.com/foaf/0.1/knows"), comment: "Knows.".to_string() },
        ],
    )];
    let mut req = Vec::new();
    complete_properties("foaf:n", range(), TripleTarget::Predicate, &doc, &links, &defined, &mut req);
    assert_eq!(req.len(), 1);
    assert_eq!(req[0].kind, CompletionKind::Property);
    assert_eq!(req[0].label, "foaf:name");
    let mut none = Vec::new();
    complete_properties("foaf:n", range(), TripleTarget::Object, &doc, &links, &defined, &mut none);
    assert!(none.is_empty());
    let mut all = Vec::new();
    complete_properties("", range(), TripleTarget::Predicate, &doc, &links, &defined, &mut all);
    assert_eq!(all.len(), 2);
    assert_eq!(all[1].label, "foaf:knows");
}

#[test]
fn declared_prefixes_complete_a_word() {
    let doc = parse_source("http://example.com/doc", DOC).unwrap();
    let mut req = Vec::new();
    turtle_prefix_completion("fo:bar", range(), &doc, &mut req);
    assert_eq!(req.len(), 1);
    assert_eq!(req[0].kind, CompletionKind::Module);
    assert_eq!(req[0].label, "foaf");
    assert_eq!(req[0].edits[0].new_text, "foaf:");
    assert_eq!(req[0].documentation.as_deref(), Some("http://xmlns.com/foaf/0.1/"));
    let mut all = Vec::new();
    turtle_prefix_completion("", range(), &doc, &mut all);
    assert_eq!(all.iter().map(|c| c.label.as_str()).collect::<Vec<_>>(), vec!["foaf", "ex"]);
    let mut none = Vec::new();
    turtle_prefix_completion("x:", range(), &doc, &mut none);
    assert!(none.is_empty());
}

#[test]
fn undefined_prefix_goes_after_the_base() {
    let doc = parse_source("http://example.com/doc", DOC).unwrap();
    let e = undefined_prefix_edit(&doc, "schema", "https://schema.org/");
    assert_eq!(e.new_text, "@prefix schema: <https://schema.org/>.\n");
    assert_eq!(e.range.start, Position { line: 0, character: 0 });
    assert_eq!(e.range.end, e.range.start);
    let based = parse_source("http://example.com/doc", "@base <http://example.com/> .\n").unwrap();
    let e = undefined_prefix_edit(&based, "schema", "https://schema.org/");
    assert_eq!(e.range.start, Position { line: 1, character: 0 });
}

#[test]
fn foa_completes_to_foaf() {
    let doc = parse_source("http://example.com/doc", DOC).unwrap();
    let mut req = Vec::new();
    turtle_prefix_completion("foa", range(), &doc, &mut req);
    assert_eq!(req.len(), 1);
    assert_eq!(req[0].edits[0].new_text, "foaf:");
}

#[test]
fn offered_classes_start_with_the_word() {
    let doc = parse_source("http://example.com/doc", DOC).unwrap();
    let links = vec!["http://xmlns.com/foaf/0.1/".to_string(), "http://unlinked.org/".to_string()];
    let mut req = Vec::new();
    complete_class("foaf:", range(), &quad(RDF_TYPE), TripleTarget::Object, &doc, &links, &classes(), &mut req);
    assert_eq!(req.len(), 3);
    for c in &req {
        assert!(c.label.starts_with("foaf:"));
        assert_eq!(c.edits.len(), 1);
        assert_eq!(c.edits[0].new_text, c.label);
    }
}
