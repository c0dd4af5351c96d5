use lang_turtle::parser::parse_source;
use lang_turtle::prefixes::derive_prefixes;

#[test]
fn prefixes_become_urls_in_order() {
    let doc = parse_source(
        "http://example.com/doc",
        "@prefix foaf: <http://xmlns.com/foaf/0.1/> .\n@prefix ex: <http://EXAMPLE.com> .\n<a> <b> <c> .\n",
    )
    .unwrap();
    let p = derive_prefixes(&doc, "http://example.com/doc");
    assert_eq!(p.prefixes.len(), 2);
    assert_eq!(p.prefixes[0].prefix, "foaf");
    assert_eq!(p.prefixes[0].url, "http://xmlns.com/foaf/0.1/");
    assert_eq!(p.prefixes[1].prefix, "ex");
    assert_eq!(p.prefixes[1].url, "http://example.com/");
    assert_eq!(p.base, "http://example.com/doc");
}

#[test]
fn base_declaration_gives_the_base() {
    let doc = parse_source("http://example.com/doc", "@base <http://other.org/dir/> .\n").unwrap();
    let p = derive_prefixes(&doc, "http://example.com/doc");
    assert!(p.prefixes.is_empty());
    assert_eq!(p.base, "http://other.org/dir/");
}
