use lang_turtle::completion::{CompletionKind, Position, TextRange};
use lang_turtle::parser::parse_source;
use lang_turtle::suggest::{prefixes_to_fetch, subject_completion};
use lang_turtle::token::Token;

#[test]
fn subjects_starting_with_the_word_are_offered() {
    let doc = parse_source(
        "http://example.com/ns#",
        "@prefix ex: <http://ex.org/> .\nex:abc ex:p ex:o .\nex:b ex:p ex:o .\nex:a ex:p ex:o .",
    )
    .unwrap();
    let triples = doc.get_simple_triples().unwrap();
    let docs = vec![("file1".to_string(), triples.triples)];
    let range = TextRange {
        start: Position { line: 3, character: 0 },
        end: Position { line: 3, character: 4 },
    };
    let token = Token::PNameLN(Some("ex".to_string()), "a".to_string());
    let mut req = Vec::new();
    subject_completion(&token, "ex:a", range, &doc, &docs, &mut req);
    assert_eq!(req.len(), 1);
    assert_eq!(req[0].label, "http://ex.org/abc");
    assert_eq!(req[0].kind, CompletionKind::Module);
    assert_eq!(req[0].edits[0].new_text, "ex:abc");
    assert_eq!(req[0].documentation.as_deref(), Some("Subject from file1"));

    let mut none = Vec::new();
    subject_completion(&Token::Stop, "ex:a", range, &doc, &docs, &mut none);
    assert!(none.is_empty());
}

#[test]
fn prefix_locations_are_fetched_once() {
    let doc = parse_source(
        "http://example.com/ns#",
        "@prefix foaf: <http://xmlns.com/foaf/0.1/> .\n@prefix f2: <http://xmlns.com/foaf/0.1/> .\n@prefix ex: <http://ex.org/> .\n",
    )
    .unwrap();
    let mut handled = vec!["http://ex.org/".to_string()];
    let fetch = prefixes_to_fetch(&doc, &mut handled);
    assert_eq!(fetch, vec!["http://xmlns.com/foaf/0.1/".to_string()]);
    assert_eq!(handled.len(), 2);
    let again = prefixes_to_fetch(&doc, &mut handled);
    assert!(again.is_empty());
}
