use lang_turtle::lexer::parse_tokens_str;
use lang_turtle::model::{Literal, Term, Turtle};
use lang_turtle::parser::{parse_source, Ctx};

#[test]
fn parse_triple_1() {
    let text = "<a> <b> <c> .";
    let tokens = parse_tokens_str(text).0;
    let triple = Ctx::new(&tokens).parse_triple();

    assert!(triple.is_some());
}

#[test]
fn parse_triple_2() {
    let text = "[ ] <b> <c> .";
    let tokens = parse_tokens_str(text).0;
    let triple = Ctx::new(&tokens).parse_triple();

    assert!(triple.is_some());
}

#[test]
fn parse_triple_3() {
    let text = "[ <a> [] ] <b> <c> .";
    let tokens = parse_tokens_str(text).0;
    let triple = Ctx::new(&tokens).parse_triple();

    assert!(triple.is_some());
}

#[test]
fn parse_triple_4() {
    let text = "[ <a> [] ; ] <b> <c> ; .";
    let tokens = parse_tokens_str(text).0;
    let triple = Ctx::new(&tokens).parse_triple();

    assert!(triple.is_some());
}

#[test]
fn parse_triple_5() {
    let text = "<a> <b> 'tetten'^^xsd:string .";
    let tokens = parse_tokens_str(text).0;
    let triple = Ctx::new(&tokens).parse_triple();

    assert!(triple.is_some());

    match triple.unwrap().0.po[0].0.object[0].value() {
        Term::Literal(Literal::RDF(literal)) => {
            assert!(literal.ty.is_some())
        }
        _ => assert!(false),
    }
}

#[test]
fn parse_triple_wrong_1() {
    let text = "a <b> <c> .";
    let tokens = parse_tokens_str(text).0;
    let triple = Ctx::new(&tokens).parse_triple();

    assert!(triple.is_none());
}

#[test]
fn parse_triple_wrong_2() {
    let text = "a <b> 'tetten'^^ .";
    let tokens = parse_tokens_str(text).0;
    let triple = Ctx::new(&tokens).parse_triple();

    assert!(triple.is_none());
}

#[test]
fn parse_turtle_1() {
    let txt = r#"
        @base <>. #This is a very nice comment!
#This is a very nice comment!
@prefix rdf: <http://www.w3.org/1999/02/22-rdf-syntax-ns#> .
<a> <b> <c>.
#This is a very nice comment!
            "#;
    let url = "http://example.com/ns#";
    let mut output = Turtle::empty(url);
    let tokens = parse_tokens_str(txt).0;
    Ctx::new(&tokens).parse_turtle(&mut output);
    assert_eq!(output.prefixes.len(), 1, "prefixes are parsed");
    assert_eq!(output.triples.len(), 1, "triples are parsed");
    assert!(output.base.is_some(), "base is parsed");
}

#[test]
fn parse_turtle_2() {
    let txt = r#"
<a> <b> <c>.
#This is a very nice comment!
            "#;
    let url = "http://example.com/ns#";
    let mut output = Turtle::empty(url);
    let tokens = parse_tokens_str(txt).0;
    Ctx::new(&tokens).parse_turtle(&mut output);
    assert_eq!(output.prefixes.len(), 0, "prefixes are parsed");
    assert_eq!(output.triples.len(), 1, "triples are parsed");
    assert!(output.base.is_none(), "base is not parsed");
}

#[test]
fn parse_turtle_3() {
    let txt = r#"
<a> <b> <c>.
<d> <e> <f> <g>.
<h> <i> <j>.
#This is a very nice comment!
            "#;

    let url = "http://example.com/ns#";
    let mut output = Turtle::empty(url);
    let tokens = parse_tokens_str(txt).0;
    let failed = Ctx::new(&tokens).parse_turtle_retry(&mut output);
    for fail in &failed {
        println!("Fail {:?}", fail);
        for t in &tokens[fail.clone()] {
            println!("{:?} {} - ", t.value(), &txt[t.span().start..t.span().end]);
        }
        println!("");
    }
    assert_eq!(output.prefixes.len(), 0, "prefixes are parsed");
    assert_eq!(output.triples.len(), 2, "triples are parsed");
    assert!(output.base.is_none(), "base is not parsed");
    assert_eq!(failed.len(), 1, "one mistake");
}

#[test]
fn parse_source_accepts_a_whole_document() {
    let txt = "@prefix foaf: <http://xmlns.com/foaf/0.1/> .\n<a> foaf:name \"A\" . # done\n";
    let doc = parse_source("http://example.com/ns#", txt).expect("whole document");
    assert_eq!(doc.prefixes.len(), 1);
    assert_eq!(doc.triples.len(), 1);
    assert_eq!(doc.set_base, "http://example.com/ns#");
}

#[test]
fn parse_source_refuses_trailing_garbage() {
    let txt = "<a> <b> <c> . <d> <e>";
    assert!(parse_source("http://example.com/ns#", txt).is_none());
}

#[test]
fn parse_retry_skips_a_failed_statement() {
    let txt = "<a> <b> . <c> <d> <e> . <f> <g> <h> .";
    let tokens = parse_tokens_str(txt).0;
    let mut output = Turtle::empty("http://example.com/ns#");
    let failed = Ctx::new(&tokens).parse_turtle_retry(&mut output);
    assert_eq!(output.triples.len(), 3);
    assert!(failed.is_empty());
}

#[test]
fn sparql_style_prefix_and_base() {
    let txt = "PREFIX ex: <http://ex.org/> BASE <http://base.org/> ex:a ex:b ex:c .";
    let doc = parse_source("http://example.com/ns#", txt).expect("sparql directives");
    assert_eq!(doc.prefixes.len(), 1);
    assert_eq!(doc.prefixes[0].0.prefix.0, "ex");
    assert!(doc.base.is_some());
    assert_eq!(doc.triples.len(), 1);
}

fn triple_text(text: &str) -> Option<String> {
    let tokens = parse_tokens_str(text).0;
    Ctx::new(&tokens).parse_triple().map(|t| t.0.to_string())
}

#[test]
fn literal_forms_render_as_written() {
    assert_eq!(triple_text("<a> <b> 42 .").unwrap(), "<a> <b> 42.");
    assert_eq!(triple_text("<a> <b> \"42\"@en .").unwrap(), "<a> <b> \"42\"@en.");
    assert_eq!(triple_text("<a> <b> \"42\"^^xsd:int .").unwrap(), "<a> <b> \"42\"^^xsd:int.");
    assert_eq!(triple_text("<a> <b> '42' .").unwrap(), "<a> <b> '42'.");
    assert_eq!(triple_text("<a> <b> \"\"\"42\"\"\" .").unwrap(), "<a> <b> \"\"\"42\"\"\".");
    assert_eq!(triple_text("<a> <b> '''42''' .").unwrap(), "<a> <b> '''42'''.");
}

#[test]
fn named_node_forms_render_as_written() {
    assert_eq!(triple_text("<abc> a : .").unwrap(), "<abc> a :.");
    assert_eq!(triple_text("foo:bar a <c> .").unwrap(), "foo:bar a <c>.");
}

#[test]
fn triples_render_with_lists_and_blank_nodes() {
    assert_eq!(triple_text("<a> <b> <c> .").unwrap(), "<a> <b> <c>.");
    assert_eq!(triple_text("<a> <b> <c> , <d> .").unwrap(), "<a> <b> <c>, <d>.");
    assert_eq!(triple_text("[ <d> <e> ] <b> <c> .").unwrap(), "[ <d> <e> ; ] <b> <c>.");
    assert_eq!(
        triple_text("[ <d> <e> ; <f> <g> ;  ] <b> <c> .").unwrap(),
        "[ <d> <e> ;<f> <g> ; ] <b> <c>."
    );
    assert_eq!(triple_text("<a> <b> [ ] .").unwrap(), "<a> <b> [ ].");
}

#[test]
fn prefix_renders_as_written() {
    let doc = parse_source(
        "http://example.com/ns#",
        "@prefix rdf: <http://www.w3.org/1999/02/22-rdf-syntax-ns#> .",
    )
    .unwrap();
    assert_eq!(
        doc.prefixes[0].0.to_string(),
        "@prefix rdf: <http://www.w3.org/1999/02/22-rdf-syntax-ns#> ."
    );
}

fn recover(text: &str) -> (Turtle, Vec<std::ops::Range<usize>>) {
    let tokens = parse_tokens_str(text).0;
    let mut output = Turtle::empty("http://example.com/ns#");
    let errors = Ctx::new(&tokens).parse_turtle_recover(&mut output);
    (output, errors)
}

#[test]
fn parse_triple_with_recovery_no_end() {
    let (output, errors) = recover("<a> <b> <c>");
    assert_eq!(errors.len(), 1);
    assert_eq!(output.to_string(), "<a> <b> <c>.\n");
}

#[test]
fn parse_triple_with_recovery_no_object() {
    let (output, errors) = recover("<b> <c> .");
    assert_eq!(errors.len(), 1);
    assert_eq!(output.to_string(), "<b> <c> invalid.\n");
}

#[test]
fn parse_triple_with_recovery_unfinished_object() {
    let (output, errors) = recover("<a> <b> <c>; <d> .");
    assert_eq!(errors.len(), 1);
    assert_eq!(output.to_string(), "<a> <b> <c>; <d> invalid.\n");
}

#[test]
fn parse_triple_with_invalid_token_predicate() {
    let (output, errors) = recover("<a> foa");
    assert_eq!(errors.len(), 3);
    assert_eq!(output.to_string(), "<a> invalid invalid.\n");
}

#[test]
fn parse_triple_with_invalid_token_subject() {
    let (output, errors) = recover("foa");
    assert_eq!(errors.len(), 4);
    assert_eq!(output.to_string(), "invalid invalid invalid.\n");
}

#[test]
fn turtle_invalid_predicate_in_object() {
    let txt = r#"
@prefix foaf: <http://xmlns.com/foaf/0.1/>.
<> a foaf:Person.
foaf: foaf:name "Arthur".

<a> a foaf:Person;
        foaf:  <invalid>;
        foaf:name "Arthur".

<a> a foaf:Person;.
<c> foaf:name "Arthur".

<a> foaf: foaf:Person;
    foaf:name "Arthur".
            "#;
    let (output, errors) = recover(txt);
    assert!(errors.is_empty());
    let triples = output.get_simple_triples().expect("triples");
    assert_eq!(output.prefixes.len(), 1, "prefixes are parsed");
    assert_eq!(triples.triples.len(), 9, "triples are parsed");
}

#[test]
fn recovery_errors_point_at_tokens() {
    // `foa` is an unreadable predicate (its own token); object and `.` are missing
    let (_, errors) = recover("<a> foa");
    assert_eq!(errors, vec![1..2, 2..2, 2..2]);
    // nothing starts a statement at `.`: skipped up to and including it
    let (output, errors) = recover(". <a> <b> <c> .");
    assert_eq!(errors, vec![0..1]);
    assert_eq!(output.triples.len(), 1);
}
