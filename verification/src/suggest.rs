//! Completions of subjects: the subjects of the open documents that start
//! with the IRI of the prefixed name being written.
use crate::completion::{
    CompletionKind, SimpleCompletion, SimpleCompletionV, TextEdit, TextEditV, TextRange,
};
use crate::model::expand::{
    contains_str, expand_full, opt_str, shorten_from, strip_prefix, strip_prefix_spec, strs_view,
};
use crate::model::{NamedNode, NamedNodeV, Turtle, TurtleV};
use crate::shacl::{completions_view, str_eq};
use crate::token::{Token, TokenV};
use crate::triples::builder::quads_view;
use crate::triples::{MyQuad, MyQuadV};
use vstd::prelude::*;
use vstd::string::StringExecFns;

verus! {

/// The named node that a prefixed-name token writes.
pub open spec fn token_named_node(t: TokenV) -> Option<NamedNodeV> {
    match t {
        TokenV::PNameLN(p, v) => Some(
            NamedNodeV::Prefixed {
                prefix: match p {
                    Some(p) => p,
                    None => Seq::empty(),
                },
                value: v,
            },
        ),
        _ => None,
    }
}

/// The completion offering subject `subj` of the document `label`, unless
/// the word being written is already the way it would be written.
pub open spec fn subject_item(
    d: TurtleV,
    word: Seq<char>,
    range: TextRange,
    label: Seq<char>,
    subj: Seq<char>,
) -> Option<SimpleCompletionV> {
    let new_text = match shorten_from(d, subj, 0) {
        Some(s) => s,
        None => subj,
    };
    if new_text == word {
        None
    } else {
        Some(
            SimpleCompletionV {
                kind: CompletionKind::Module,
                label: subj,
                documentation: Some("Subject from "@ + label),
                sort_text: None,
                filter_text: None,
                edits: seq![TextEditV { new_text, range }],
            },
        )
    }
}

/// The completions from the quads `qs` of document `label`, from the
/// `j`-th on, whose subject starts with `expanded`.
pub open spec fn doc_items(
    d: TurtleV,
    expanded: Seq<char>,
    word: Seq<char>,
    range: TextRange,
    label: Seq<char>,
    qs: Seq<MyQuadV>,
    j: int,
) -> Seq<SimpleCompletionV>
    decreases qs.len() - j,
{
    if !(0 <= j < qs.len()) {
        Seq::empty()
    } else {
        let rest = doc_items(d, expanded, word, range, label, qs, j + 1);
        let subj = qs[j].subject.value;
        if strip_prefix_spec(subj, expanded) is Some {
            match subject_item(d, word, range, label, subj) {
                Some(c) => seq![c] + rest,
                None => rest,
            }
        } else {
            rest
        }
    }
}

/// The completions from the documents from the `i`-th on.
pub open spec fn all_items(
    d: TurtleV,
    expanded: Seq<char>,
    word: Seq<char>,
    range: TextRange,
    docs: Seq<(Seq<char>, Seq<MyQuadV>)>,
    i: int,
) -> Seq<SimpleCompletionV>
    decreases docs.len() - i,
{
    if !(0 <= i < docs.len()) {
        Seq::empty()
    } else {
        doc_items(d, expanded, word, range, docs[i].0, docs[i].1, 0) + all_items(
            d,
            expanded,
            word,
            range,
            docs,
            i + 1,
        )
    }
}

pub open spec fn docs_view(docs: Seq<(String, Vec<MyQuad>)>) -> Seq<(Seq<char>, Seq<MyQuadV>)> {
    docs.map_values(|x: (String, Vec<MyQuad>)| (x.0@, quads_view(x.1@)))
}

/// The subject completions for the word `word_text` (the token `token`,
/// at `range`) in `turtle`: where the token is a prefixed name that
/// expands, the subjects of the documents `docs` (labelled, in order) that
/// start with its expansion.
pub open spec fn subject_items(
    d: TurtleV,
    token: TokenV,
    word: Seq<char>,
    range: TextRange,
    docs: Seq<(Seq<char>, Seq<MyQuadV>)>,
) -> Seq<SimpleCompletionV> {
    match token_named_node(token) {
        Some(n) => match expand_full(n, d) {
            Some(expanded) => all_items(d, expanded, word, range, docs, 0),
            None => Seq::empty(),
        },
        None => Seq::empty(),
    }
}

/// Adds to `req` the subject completions for the word `word_text` (the
/// token `token`, at `range`) in `turtle`, from the triples of `docs`.
pub fn subject_completion(
    token: &Token,
    word_text: &str,
    range: TextRange,
    turtle: &Turtle,
    docs: &Vec<(String, Vec<MyQuad>)>,
    req: &mut Vec<SimpleCompletion>,
)
    ensures
        completions_view(final(req)@) == completions_view(old(req)@) + subject_items(
            turtle@,
            token@,
            word_text@,
            range,
            docs_view(docs@),
        ),
{
    let nn = match token {
        Token::PNameLN(pref, value) => NamedNode::Prefixed {
            prefix: match pref {
                Some(p) => p.clone(),
                None => String::new(),
            },
            value: value.clone(),
        },
        _ => {
            assert(completions_view(req@) =~= completions_view(req@) + Seq::<SimpleCompletionV>::empty());
            return ;
        },
    };
    let expanded = match nn.expand(turtle) {
        Some(e) => e,
        None => {
            assert(completions_view(req@) =~= completions_view(req@) + Seq::<SimpleCompletionV>::empty());
            return ;
        },
    };
    let ghost dv = docs_view(docs@);
    let ghost start = completions_view(req@);
    let mut i: usize = 0;
    while i < docs.len()
        invariant
            0 <= i <= docs.len(),
            dv == docs_view(docs@),
            start == completions_view(old(req)@),
            subject_items(turtle@, token@, word_text@, range, dv) == all_items(
                turtle@,
                expanded@,
                word_text@,
                range,
                dv,
                0,
            ),
            completions_view(req@) + all_items(turtle@, expanded@, word_text@, range, dv, i as int)
                == start + all_items(turtle@, expanded@, word_text@, range, dv, 0),
        decreases docs.len() - i,
    {
        let label = &docs[i].0;
        let quads = &docs[i].1;
        let ghost qs = quads_view(quads@);
        assert(dv[i as int] == (label@, qs));
        let ghost mid = completions_view(req@);
        let mut j: usize = 0;
        while j < quads.len()
            invariant
                0 <= j <= quads.len(),
                qs == quads_view(quads@),
                completions_view(req@) + doc_items(
                    turtle@,
                    expanded@,
                    word_text@,
                    range,
                    label@,
                    qs,
                    j as int,
                ) == mid + doc_items(turtle@, expanded@, word_text@, range, label@, qs, 0),
            decreases quads.len() - j,
        {
            let subj = &quads[j].subject.value;
            let ghost before = completions_view(req@);
            if strip_prefix(subj.as_str(), expanded.as_str()).is_some() {
                let new_text = match turtle.shorten(subj.as_str()) {
                    Some(s) => s,
                    None => subj.clone(),
                };
                if !str_eq(new_text.as_str(), word_text) {
                    let mut doc = String::from_str("Subject from ");
                    doc.append(label.as_str());
                    let mut edits: Vec<TextEdit> = Vec::new();
                    edits.push(TextEdit { new_text, range });
                    let c = SimpleCompletion {
                        kind: CompletionKind::Module,
                        label: subj.clone(),
                        documentation: Some(doc),
                        sort_text: None,
                        filter_text: None,
                        edits,
                    };
                    assert(c@.edits =~= seq![c.edits@[0]@]);
                    req.push(c);
                    assert(completions_view(req@) =~= before.push(c@));
                    assert(completions_view(req@) + doc_items(
                        turtle@,
                        expanded@,
                        word_text@,
                        range,
                        label@,
                        qs,
                        j + 1,
                    ) =~= before + doc_items(
                        turtle@,
                        expanded@,
                        word_text@,
                        range,
                        label@,
                        qs,
                        j as int,
                    ));
                }
            }
            j = j + 1;
        }
        assert(completions_view(req@) + all_items(
            turtle@,
            expanded@,
            word_text@,
            range,
            dv,
            i + 1,
        ) =~= mid + all_items(turtle@, expanded@, word_text@, range, dv, i as int));
        i = i + 1;
    }
    assert(completions_view(req@) =~= completions_view(req@) + all_items(
        turtle@,
        expanded@,
        word_text@,
        range,
        dv,
        i as int,
    ));
}

} // verus!

verus! {

/// Reading the prefix declarations of `d` from the `i`-th on: the
/// locations they expand to that are not in `handled`, each once, in order,
/// and `handled` with those added.
pub open spec fn locations_from(d: TurtleV, handled: Seq<Seq<char>>, i: int) -> (
    Seq<Seq<char>>,
    Seq<Seq<char>>,
)
    decreases d.prefixes.len() - i,
{
    if !(0 <= i < d.prefixes.len()) {
        (handled, Seq::empty())
    } else {
        match expand_full(d.prefixes[i].0.value.0, d) {
            Some(l) => if handled.contains(l) {
                locations_from(d, handled, i + 1)
            } else {
                let (h, f) = locations_from(d, handled.push(l), i + 1);
                (h, seq![l] + f)
            },
            None => locations_from(d, handled, i + 1),
        }
    }
}

/// The locations that the prefix declarations of `turtle` point to and that
/// are not in `handled` yet, each once and in order; they are added to
/// `handled`.
pub fn prefixes_to_fetch(turtle: &Turtle, handled: &mut Vec<String>) -> (r: Vec<String>)
    ensures
        (strs_view(final(handled)@), strs_view(r@)) == locations_from(
            turtle@,
            strs_view(old(handled)@),
            0,
        ),
{
    let mut fetch: Vec<String> = Vec::new();
    let ghost h0 = strs_view(handled@);
    let mut i: usize = 0;
    while i < turtle.prefixes.len()
        invariant
            0 <= i <= turtle.prefixes.len(),
            h0 == strs_view(old(handled)@),
            ({
                let (h, f) = locations_from(turtle@, strs_view(handled@), i as int);
                (h, strs_view(fetch@) + f) == locations_from(turtle@, h0, 0)
            }),
        decreases turtle.prefixes.len() - i,
    {
        let ghost hb = strs_view(handled@);
        let ghost fb = strs_view(fetch@);
        match turtle.prefixes[i].0.value.0.expand(turtle) {
            Some(label) => {
                if !contains_str(handled, &label) {
                    handled.push(label.clone());
                    fetch.push(label);
                    proof {
                        assert(strs_view(handled@) =~= hb.push(label@));
                        assert(strs_view(fetch@) =~= fb.push(label@));
                        let (h, f) = locations_from(turtle@, strs_view(handled@), i + 1);
                        assert(fb.push(label@) + f =~= fb + (seq![label@] + f));
                    }
                }
            },
            None => {},
        }
        i = i + 1;
    }
    proof {
        assert(strs_view(fetch@) + Seq::<Seq<char>>::empty() =~= strs_view(fetch@));
    }
    fetch
}

} // verus!

verus! {

/// Nothing occurs twice in `s`.
pub open spec fn no_dups(s: Seq<Seq<char>>) -> bool {
    forall|a: int, b: int| 0 <= a < b < s.len() ==> s[a] != s[b]
}

/// The locations to fetch are new, each is fetched once, and the handled
/// locations, once without repeats, stay without repeats: every location
/// is fetched at most once over all calls.
pub proof fn lemma_fetch_once(d: TurtleV, handled: Seq<Seq<char>>, i: int)
    requires
        no_dups(handled),
    ensures
        no_dups(locations_from(d, handled, i).0),
        no_dups(locations_from(d, handled, i).1),
        forall|k: int|
            0 <= k < locations_from(d, handled, i).1.len() ==> !handled.contains(
                #[trigger] locations_from(d, handled, i).1[k],
            ),
        forall|k: int|
            0 <= k < handled.len() ==> locations_from(d, handled, i).0.contains(#[trigger] handled[k]),
        forall|k: int|
            0 <= k < locations_from(d, handled, i).1.len() ==> locations_from(d, handled, i).0.contains(
                #[trigger] locations_from(d, handled, i).1[k],
            ),
    decreases d.prefixes.len() - i,
{
    if 0 <= i < d.prefixes.len() {
        match expand_full(d.prefixes[i].0.value.0, d) {
            Some(l) => if handled.contains(l) {
                lemma_fetch_once(d, handled, i + 1);
            } else {
                let h2 = handled.push(l);
                assert(no_dups(h2)) by {
                    assert forall|a: int, b: int| 0 <= a < b < h2.len() implies h2[a] != h2[b] by {
                        if b == handled.len() {
                            assert(h2[a] == handled[a]);
                        }
                    }
                }
                lemma_fetch_once(d, h2, i + 1);
                let (h, f) = locations_from(d, h2, i + 1);
                let g = seq![l] + f;
                assert(h2[handled.len() as int] == l);
                assert(h.contains(l));
                assert forall|k: int| 0 <= k < handled.len() implies h.contains(
                    #[trigger] handled[k],
                ) by {
                    assert(h2[k] == handled[k]);
                }
                assert forall|k: int| 0 <= k < g.len() implies !handled.contains(#[trigger] g[k])
                    && h.contains(g[k]) by {
                    if k > 0 {
                        assert(g[k] == f[k - 1]);
                        if handled.contains(f[k - 1]) {
                            let x = choose|x: int| 0 <= x < handled.len() && handled[x] == f[k - 1];
                            assert(h2[x] == handled[x]);
                            assert(h2.contains(f[k - 1]));
                        }
                    }
                }
                assert(no_dups(g)) by {
                    assert forall|a: int, b: int| 0 <= a < b < g.len() implies g[a] != g[b] by {
                        assert(g[b] == f[b - 1]);
                        if a > 0 {
                            assert(g[a] == f[a - 1]);
                        } else {
                            assert(!h2.contains(f[b - 1]));
                        }
                    }
                }
            },
            None => lemma_fetch_once(d, handled, i + 1),
        }
    }
}

} // verus!
