//! The prefixes a document declares and the base it resolves against, as
//! URLs that other documents can be linked by.
use crate::iri::{parse_url, url_parse};
use crate::model::expand::expand_full;
use crate::model::{PrefixV, Turtle, TurtleV};
use crate::token::Span;
use vstd::prelude::*;
use vstd::string::StringExecFns;

verus! {

/// A declared prefix and the URL it stands for.
#[derive(Clone, Debug)]
pub struct Prefix {
    pub url: String,
    pub prefix: String,
}

/// The prefixes of a document, in order of declaration, and its base URL.
#[derive(Clone, Debug)]
pub struct Prefixes {
    pub prefixes: Vec<Prefix>,
    pub base: String,
}

pub open spec fn prefix_list_view(v: Seq<Prefix>) -> Seq<(Seq<char>, Seq<char>)> {
    v.map_values(|p: Prefix| (p.prefix@, p.url@))
}

/// Declaration `p` as a prefix and URL, where its IRI expands to a URL.
pub open spec fn prefix_entry(d: TurtleV, p: PrefixV) -> Option<(Seq<char>, Seq<char>)> {
    match expand_full(p.value.0, d) {
        Some(iri) => match url_parse(iri) {
            Some(url) => Some((p.prefix.0, url)),
            None => None,
        },
        None => None,
    }
}

/// The entries of the declarations from the `j`-th on, skipping those
/// that give none.
pub open spec fn prefix_entries(d: TurtleV, ps: Seq<(PrefixV, Span)>, j: int) -> Seq<
    (Seq<char>, Seq<char>),
>
    decreases ps.len() - j,
{
    if !(0 <= j < ps.len()) {
        Seq::empty()
    } else {
        let rest = prefix_entries(d, ps, j + 1);
        match prefix_entry(d, ps[j].0) {
            Some(e) => seq![e] + rest,
            None => rest,
        }
    }
}

/// The base URL of document `d` read from `label`: its base declaration
/// where that expands to a URL, else the label.
pub open spec fn derived_base(d: TurtleV, label: Seq<char>) -> Seq<char> {
    match d.base {
        Some(b) => match expand_full(b.0.1.0, d) {
            Some(iri) => match url_parse(iri) {
                Some(url) => url,
                None => label,
            },
            None => label,
        },
        None => label,
    }
}

/// The prefixes that `turtle` (read from `label`) declares, as URLs, and
/// its base URL.
pub fn derive_prefixes(turtle: &Turtle, label: &str) -> (r: Prefixes)
    ensures
        prefix_list_view(r.prefixes@) == prefix_entries(turtle@, turtle@.prefixes, 0),
        r.base@ == derived_base(turtle@, label@),
{
    let ghost ps = turtle@.prefixes;
    let mut out: Vec<Prefix> = Vec::new();
    let mut j: usize = turtle.prefixes.len();
    while j > 0
        invariant
            0 <= j <= turtle.prefixes.len(),
            ps == turtle@.prefixes,
            ps.len() == turtle.prefixes@.len(),
            prefix_list_view(out@) == prefix_entries(turtle@, ps, j as int),
        decreases j,
    {
        j = j - 1;
        let p = &turtle.prefixes[j].0;
        assert(ps[j as int].0 == p@);
        let ghost before = out@;
        match p.value.0.expand(turtle) {
            Some(iri) => match parse_url(iri.as_str()) {
                Some(url) => {
                    let entry = Prefix { url, prefix: p.prefix.0.clone() };
                    out.insert(0, entry);
                    assert(prefix_list_view(out@) =~= seq![(entry.prefix@, entry.url@)]
                        + prefix_list_view(before));
                },
                None => {},
            },
            None => {},
        }
    }
    let base = match &turtle.base {
        Some(b) => match b.0.1.0.expand(turtle) {
            Some(iri) => match parse_url(iri.as_str()) {
                Some(url) => url,
                None => label.to_string(),
            },
            None => label.to_string(),
        },
        None => label.to_string(),
    };
    Prefixes { prefixes: out, base }
}

} // verus!
