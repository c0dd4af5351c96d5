//! IRI and URL resolution, done by the `url` and `sophia_iri` crates.
use vstd::prelude::*;

verus! {

/// The text of the URL that `input` denotes relative to the URL `base`, as
/// the `url` crate parses and joins them; `None` where either is no URL.
pub uninterp spec fn url_join(base: Seq<char>, input: Seq<char>) -> Option<Seq<char>>;

/// Calls `url::Url::parse` on `base` and then `Url::join` with `input`, and
/// gives the serialization of the result. The contract claims only that the
/// result is the one named `url_join` of the two texts (the outcome depends
/// on nothing else); which texts join, and to what, is left to the crate.
#[verifier::external_body]
pub(crate) fn join_url(base: &str, input: &str) -> (r: Option<String>)
    ensures
        match r {
            Some(s) => url_join(base@, input@) == Some(s@),
            None => url_join(base@, input@) is None,
        },
{
    let base = lsp_types::Url::parse(base).ok()?;
    base.join(input).ok().map(String::from)
}

/// The serialization of the URL that the `url` crate parses from `input`;
/// `None` where it is no URL.
pub uninterp spec fn url_parse(input: Seq<char>) -> Option<Seq<char>>;

/// Calls `url::Url::parse` on `input` and gives the serialization of the
/// result. The contract claims only that the outcome is the one named
/// `url_parse` of the text; which texts parse, and how they are normalised,
/// is left to the crate.
#[verifier::external_body]
pub(crate) fn parse_url(input: &str) -> (r: Option<String>)
    ensures
        match r {
            Some(s) => url_parse(input@) == Some(s@),
            None => url_parse(input@) is None,
        },
{
    lsp_types::Url::parse(input).ok().map(String::from)
}

/// The error that `sophia_iri` gives for a text that is no valid IRI.
#[verifier::external_type_specification]
#[verifier::external_body]
pub struct ExIriParseError(sophia_iri::resolve::IriParseError);

/// Whether `sophia_iri` accepts the text as an absolute base IRI.
pub uninterp spec fn is_base_iri(iri: Seq<char>) -> bool;

/// The text of the IRI that `iri` denotes relative to the base IRI `base`,
/// as `sophia_iri` resolves it; `None` where either is not valid.
pub uninterp spec fn iri_resolve(base: Seq<char>, iri: Seq<char>) -> Option<Seq<char>>;

/// Calls `sophia_iri::resolve::BaseIri::new` on `iri`. The contract claims
/// that it succeeds exactly when the text is one that `is_base_iri` names
/// (a function of the text alone); which texts those are is left to the
/// crate.
#[verifier::external_body]
pub(crate) fn check_base_iri(iri: &str) -> (r: Result<(), sophia_iri::resolve::IriParseError>)
    ensures
        r is Ok <==> is_base_iri(iri@),
{
    sophia_iri::resolve::BaseIri::new(iri.to_owned()).map(|_| ())
}

/// Calls `sophia_iri::resolve::BaseIri::resolve` on `iri`, the base being
/// made from `base` by `BaseIri::new`, and gives the resolved IRI's text.
/// The contract claims only that the outcome is the one named `iri_resolve`
/// of the two texts.
#[verifier::external_body]
pub(crate) fn resolve_iri(base: &str, iri: &str) -> (r: Result<
    String,
    sophia_iri::resolve::IriParseError,
>)
    ensures
        match r {
            Ok(s) => iri_resolve(base@, iri@) == Some(s@),
            Err(_) => iri_resolve(base@, iri@) is None,
        },
{
    let b = sophia_iri::resolve::BaseIri::new(base.to_owned())?;
    b.resolve(iri).map(|i| i.unwrap())
}

} // verus!
