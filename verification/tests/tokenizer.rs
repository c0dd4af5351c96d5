use lang_turtle::lexer::{parse_tokens_str, parse_tokens_str_safe};
use lang_turtle::token::{StringStyle, Token};

#[test]
fn tokenizer_parse_directives() {
    let input = "
            @prefix elm: <http://elm.com/types#> .
            @prefix : <http://elm.com/types#> .
            @base <http://example.com/#> . 
            # Test comment!
        ";

    assert!(parse_tokens_str_safe(input).is_ok());
}

#[test]
fn parse_strings() {
    for input in ["\"\"\"test\"\"\"", "\"\"\"t\"est\"\"\""] {
        println!("Input {}", input);
        let (tok, err) = parse_tokens_str(input);
        println!("Found tokens {:?} {:?}", tok, err);
        assert!(tok.len() == 1 && matches!(tok[0].value(), Token::Str(_, StringStyle::DoubleLong)));
        assert!(err.is_empty());
    }
}

#[test]
fn tokenizer_parse_named_node() {
    let input = "
            <http://localhost/elmBeta> 
            elm:Beta

            :testing
            ";

    let (tok, err) = parse_tokens_str(input);
    assert!(!tok.is_empty());
    assert!(err.is_empty());
}

#[test]
fn tokenizer_simple_test() {
    let input = "
            @prefix elm: <http://elm.com/types#> .
            @base <http://example.com/#> . 
            
            elm:Beta foaf:string \"cookie\"@en ;
                     foaf:astring \"jar\"^^xsd:string .

            elm:Bnode a [ foaf:name \"Kachan\" ; 
                          foaf:lastName \"Bruh\" ; 
                          foaf:email \"kb@kbc.be\", \"notkb@notkbc.be\" ].
            ";

    let (tok, err) = parse_tokens_str(input);
    assert!(!tok.is_empty());
    assert!(err.is_empty());
}

#[test]
fn tokenizer_complex_test() {
    let input = "
            @prefix rr: <http://www.w3.org/ns/r2rml#> .
            @prefix foaf: <http://xmlns.com/foaf/0.1/> .
            @prefix ex: <http://example.com/> .
            @prefix xsd: <http://www.w3.org/2001/XMLSchema#> .
            @prefix rml: <http://semweb.mmlab.be/ns/rml#> .
            @prefix ql: <http://semweb.mmlab.be/ns/ql#> .

            @base <http://example.com/base/> .

            <TriplesMap1>
              a rr:TriplesMap;
                    
              rml:logicalSource [ 
                rml:source \"student.csv\";
                rml:referenceFormulation ql:CSV
              ] ;
                
              rr:subjectMap [ 
                rr:template \"http://example.com/{Name}\" 
              ]; 
                
              rr:predicateObjectMap [ 
                rr:predicate foaf:name ; 
                rr:objectMap [ 
                  rml:reference \"Name\" 
                ]
              ].
            ";

    let (tok, err) = parse_tokens_str(input);
    assert!(!tok.is_empty());
    assert!(err.is_empty());
}

#[test]
fn tokenizer_parse_invalid() {
    let input = "
            @prefix elm: http .
            ";

    let (tok, err) = parse_tokens_str(input);
    assert!(!tok.is_empty());

    println!("tokens {:?}", tok);
    assert_eq!(tok.len(), 4);
    assert_eq!(err.len(), 1);
}

#[test]
fn token_values_and_spans() {
    let input = "@prefix ex: <http://ex.org/> . ex:a a \"s\"@en , 12 , _:b ; <v> true .";
    let (tok, err) = parse_tokens_str(input);
    assert!(err.is_empty());
    let values: Vec<Token> = tok.iter().map(|t| t.value().clone()).collect();
    assert_eq!(values[0], Token::PrefixTag);
    assert_eq!(values[1], Token::PNameLN(Some("ex".to_string()), String::new()));
    assert_eq!(values[2], Token::IRIRef("http://ex.org/".to_string()));
    assert_eq!(values[3], Token::Stop);
    assert_eq!(values[5], Token::PredType);
    assert_eq!(values[6], Token::Str("s".to_string(), StringStyle::Double));
    assert_eq!(values[7], Token::LangTag("en".to_string()));
    assert_eq!(values[9], Token::Number("12".to_string()));
    assert_eq!(values[11], Token::BlankNodeLabel("_:b".to_string()));
    assert_eq!(tok[2].span().start, 12);
    assert_eq!(tok[2].span().end, 28);
}

#[test]
fn invalid_text_is_one_error() {
    let (tok, err) = parse_tokens_str("<a> §§§ <b>");
    assert_eq!(tok.len(), 3);
    assert_eq!(err.len(), 1);
    assert_eq!(err[0].msg, "Unexpected token '§§§'");
    assert!(parse_tokens_str_safe("<a> §§§ <b>").is_err());
}
