//! Completions from vocabularies and prefix declarations: the classes and
//! properties that linked documents define, written as the current
//! document would write them, and the prefixes it declares.
use crate::completion::{
    CompletionKind, SimpleCompletion, SimpleCompletionV, TextEdit, TextEditV, TextRange,
};
use crate::lexer::{index_from, lemma_index_from};
use crate::model::expand::{
    contains_str, expand_full, rdf_type_iri, shorten_from, strip_prefix, strip_prefix_spec,
    strs_view,
};
use crate::model::{PrefixV, Turtle, TurtleV};
use crate::shacl::{completions_view, str_eq};
use crate::text::{chars_of, string_of};
use crate::token::Span;
use crate::triples::{MyQuad, MyTerm};
use vstd::prelude::*;
use vstd::string::StringExecFns;

verus! {

/// Where in a triple the word being completed stands.
#[derive(Clone, Copy, Debug, PartialEq, Eq, Structural)]
pub enum TripleTarget {
    Subject,
    Predicate,
    Object,
}

/// A class that a vocabulary defines, with its comment.
#[derive(Clone, Debug)]
pub struct DefinedClass {
    pub term: MyTerm,
    pub comment: String,
}

/// A property that a vocabulary defines, with its comment.
#[derive(Clone, Debug)]
pub struct DefinedProperty {
    pub predicate: MyTerm,
    pub comment: String,
}

/// How `iri` is written in document `d`: prefixed where a declaration
/// allows, else in full.
pub open spec fn written(d: TurtleV, iri: Seq<char>) -> Seq<char> {
    match shorten_from(d, iri, 0) {
        Some(s) => s,
        None => iri,
    }
}

/// The completion offering `iri` (with its comment) for the word `word` at
/// `range`, if the way `d` writes it starts with the word.
pub open spec fn vocab_item(
    d: TurtleV,
    word: Seq<char>,
    range: TextRange,
    kind: CompletionKind,
    iri: Seq<char>,
    comment: Seq<char>,
) -> Option<SimpleCompletionV> {
    let text = written(d, iri);
    if strip_prefix_spec(text, word) is Some {
        Some(
            SimpleCompletionV {
                kind,
                label: text,
                documentation: Some(comment),
                sort_text: None,
                filter_text: None,
                edits: seq![TextEditV { new_text: text, range }],
            },
        )
    } else {
        None
    }
}

/// The completions from the terms (IRI and comment) from the `j`-th on.
pub open spec fn vocab_items(
    d: TurtleV,
    word: Seq<char>,
    range: TextRange,
    kind: CompletionKind,
    terms: Seq<(Seq<char>, Seq<char>)>,
    j: int,
) -> Seq<SimpleCompletionV>
    decreases terms.len() - j,
{
    if !(0 <= j < terms.len()) {
        Seq::empty()
    } else {
        let rest = vocab_items(d, word, range, kind, terms, j + 1);
        match vocab_item(d, word, range, kind, terms[j].0, terms[j].1) {
            Some(c) => seq![c] + rest,
            None => rest,
        }
    }
}

/// The completions from the documents from the `i`-th on whose URL is one
/// of `links`, document by document.
pub open spec fn linked_items(
    d: TurtleV,
    word: Seq<char>,
    range: TextRange,
    kind: CompletionKind,
    links: Seq<Seq<char>>,
    docs: Seq<(Seq<char>, Seq<(Seq<char>, Seq<char>)>)>,
    i: int,
) -> Seq<SimpleCompletionV>
    decreases docs.len() - i,
{
    if !(0 <= i < docs.len()) {
        Seq::empty()
    } else {
        let rest = linked_items(d, word, range, kind, links, docs, i + 1);
        if links.contains(docs[i].0) {
            vocab_items(d, word, range, kind, docs[i].1, 0) + rest
        } else {
            rest
        }
    }
}

pub open spec fn class_terms(v: Seq<DefinedClass>) -> Seq<(Seq<char>, Seq<char>)> {
    v.map_values(|c: DefinedClass| (c.term.value@, c.comment@))
}

pub open spec fn property_terms(v: Seq<DefinedProperty>) -> Seq<(Seq<char>, Seq<char>)> {
    v.map_values(|p: DefinedProperty| (p.predicate.value@, p.comment@))
}

pub open spec fn class_docs(v: Seq<(String, Vec<DefinedClass>)>) -> Seq<
    (Seq<char>, Seq<(Seq<char>, Seq<char>)>),
> {
    v.map_values(|x: (String, Vec<DefinedClass>)| (x.0@, class_terms(x.1@)))
}

pub open spec fn property_docs(v: Seq<(String, Vec<DefinedProperty>)>) -> Seq<
    (Seq<char>, Seq<(Seq<char>, Seq<char>)>),
> {
    v.map_values(|x: (String, Vec<DefinedProperty>)| (x.0@, property_terms(x.1@)))
}

pub open spec fn item_seq(c: Option<SimpleCompletionV>) -> Seq<SimpleCompletionV> {
    match c {
        Some(c) => seq![c],
        None => Seq::empty(),
    }
}

/// Adds the completion offering `iri`, if the way `turtle` writes it
/// starts with `word`.
fn add_vocab_item(
    word: &str,
    range: TextRange,
    kind: CompletionKind,
    turtle: &Turtle,
    iri: &str,
    comment: &str,
    req: &mut Vec<SimpleCompletion>,
)
    ensures
        completions_view(final(req)@) == completions_view(old(req)@) + item_seq(
            vocab_item(turtle@, word@, range, kind, iri@, comment@),
        ),
{
    let text = match turtle.shorten(iri) {
        Some(s) => s,
        None => iri.to_string(),
    };
    assert(text@ == written(turtle@, iri@));
    match strip_prefix(text.as_str(), word) {
        Some(_) => {
            let edit = TextEdit { new_text: text.clone(), range };
            let c = SimpleCompletion {
                kind,
                label: text,
                documentation: Some(comment.to_string()),
                sort_text: None,
                filter_text: None,
                edits: vec![edit],
            };
            let ghost before = req@;
            req.push(c);
            assert(c@.edits =~= seq![edit@]);
            assert(completions_view(req@) =~= completions_view(before) + seq![c@]);
        },
        None => {
            assert(completions_view(req@) =~= completions_view(req@) + Seq::<
                SimpleCompletionV,
            >::empty());
        },
    }
}

/// Adds the completions from the classes of one document.
fn add_class_items(
    word: &str,
    range: TextRange,
    turtle: &Turtle,
    classes: &Vec<DefinedClass>,
    req: &mut Vec<SimpleCompletion>,
)
    ensures
        completions_view(final(req)@) == completions_view(old(req)@) + vocab_items(
            turtle@,
            word@,
            range,
            CompletionKind::Class,
            class_terms(classes@),
            0,
        ),
{
    let ghost ts = class_terms(classes@);
    let ghost start = completions_view(req@);
    let mut j: usize = 0;
    while j < classes.len()
        invariant
            0 <= j <= classes.len(),
            ts == class_terms(classes@),
            start == completions_view(old(req)@),
            completions_view(req@) + vocab_items(
                turtle@,
                word@,
                range,
                CompletionKind::Class,
                ts,
                j as int,
            ) == start + vocab_items(turtle@, word@, range, CompletionKind::Class, ts, 0),
        decreases classes.len() - j,
    {
        let ghost before = completions_view(req@);
        let class = &classes[j];
        assert(ts[j as int] == (class.term.value@, class.comment@));
        add_vocab_item(
            word,
            range,
            CompletionKind::Class,
            turtle,
            class.term.value.as_str(),
            class.comment.as_str(),
            req,
        );
        assert(completions_view(req@) + vocab_items(
            turtle@,
            word@,
            range,
            CompletionKind::Class,
            ts,
            j + 1,
        ) =~= before + vocab_items(turtle@, word@, range, CompletionKind::Class, ts, j as int));
        j = j + 1;
    }
    assert(completions_view(req@) =~= completions_view(req@) + vocab_items(
        turtle@,
        word@,
        range,
        CompletionKind::Class,
        ts,
        j as int,
    ));
}

/// Adds the completions from the properties of one document.
fn add_property_items(
    word: &str,
    range: TextRange,
    turtle: &Turtle,
    properties: &Vec<DefinedProperty>,
    req: &mut Vec<SimpleCompletion>,
)
    ensures
        completions_view(final(req)@) == completions_view(old(req)@) + vocab_items(
            turtle@,
            word@,
            range,
            CompletionKind::Property,
            property_terms(properties@),
            0,
        ),
{
    let ghost ts = property_terms(properties@);
    let ghost start = completions_view(req@);
    let mut j: usize = 0;
    while j < properties.len()
        invariant
            0 <= j <= properties.len(),
            ts == property_terms(properties@),
            start == completions_view(old(req)@),
            completions_view(req@) + vocab_items(
                turtle@,
                word@,
                range,
                CompletionKind::Property,
                ts,
                j as int,
            ) == start + vocab_items(turtle@, word@, range, CompletionKind::Property, ts, 0),
        decreases properties.len() - j,
    {
        let ghost before = completions_view(req@);
        let property = &properties[j];
        assert(ts[j as int] == (property.predicate.value@, property.comment@));
        add_vocab_item(
            word,
            range,
            CompletionKind::Property,
            turtle,
            property.predicate.value.as_str(),
            property.comment.as_str(),
            req,
        );
        assert(completions_view(req@) + vocab_items(
            turtle@,
            word@,
            range,
            CompletionKind::Property,
            ts,
            j + 1,
        ) =~= before + vocab_items(turtle@, word@, range, CompletionKind::Property, ts, j as int));
        j = j + 1;
    }
    assert(completions_view(req@) =~= completions_view(req@) + vocab_items(
        turtle@,
        word@,
        range,
        CompletionKind::Property,
        ts,
        j as int,
    ));
}

/// Where the word `word` (at `range`) is the object of an `rdf:type`
/// triple, adds the classes of the documents in `defined` that `links`
/// links to, document by document, whose written form starts with the word.
pub fn complete_class(
    word: &str,
    range: TextRange,
    triple: &MyQuad,
    target: TripleTarget,
    turtle: &Turtle,
    links: &Vec<String>,
    defined: &Vec<(String, Vec<DefinedClass>)>,
    request: &mut Vec<SimpleCompletion>,
)
    ensures
        completions_view(final(request)@) == completions_view(old(request)@) + if triple@.predicate.value
            == rdf_type_iri() && target == TripleTarget::Object {
            linked_items(
                turtle@,
                word@,
                range,
                CompletionKind::Class,
                strs_view(links@),
                class_docs(defined@),
                0,
            )
        } else {
            Seq::empty()
        },
{
    if !(str_eq(triple.predicate.value.as_str(), "http://www.w3.org/1999/02/22-rdf-syntax-ns#type")
        && target == TripleTarget::Object) {
        assert(completions_view(request@) =~= completions_view(request@) + Seq::<
            SimpleCompletionV,
        >::empty());
        return ;
    }
    let ghost ds = class_docs(defined@);
    let ghost ls = strs_view(links@);
    let ghost start = completions_view(request@);
    let mut i: usize = 0;
    while i < defined.len()
        invariant
            0 <= i <= defined.len(),
            ds == class_docs(defined@),
            ls == strs_view(links@),
            start == completions_view(old(request)@),
            triple@.predicate.value == rdf_type_iri(),
            target == TripleTarget::Object,
            completions_view(request@) + linked_items(
                turtle@,
                word@,
                range,
                CompletionKind::Class,
                ls,
                ds,
                i as int,
            ) == start + linked_items(turtle@, word@, range, CompletionKind::Class, ls, ds, 0),
        decreases defined.len() - i,
    {
        let ghost before = completions_view(request@);
        let (label, classes) = (&defined[i].0, &defined[i].1);
        assert(ds[i as int] == (label@, class_terms(classes@)));
        if contains_str(links, label) {
            add_class_items(word, range, turtle, classes, request);
        }
        assert(completions_view(request@) + linked_items(
            turtle@,
            word@,
            range,
            CompletionKind::Class,
            ls,
            ds,
            i + 1,
        ) =~= before + linked_items(turtle@, word@, range, CompletionKind::Class, ls, ds, i as int));
        i = i + 1;
    }
    assert(completions_view(request@) =~= completions_view(request@) + linked_items(
        turtle@,
        word@,
        range,
        CompletionKind::Class,
        ls,
        ds,
        i as int,
    ));
}

/// Where the word `word` (at `range`) is the predicate of its triple, adds
/// the properties of the documents in `defined` that `links` links to,
/// document by document, whose written form starts with the word.
pub fn complete_properties(
    word: &str,
    range: TextRange,
    target: TripleTarget,
    turtle: &Turtle,
    links: &Vec<String>,
    defined: &Vec<(String, Vec<DefinedProperty>)>,
    request: &mut Vec<SimpleCompletion>,
)
    ensures
        completions_view(final(request)@) == completions_view(old(request)@) + if target
            == TripleTarget::Predicate {
            linked_items(
                turtle@,
                word@,
                range,
                CompletionKind::Property,
                strs_view(links@),
                property_docs(defined@),
                0,
            )
        } else {
            Seq::empty()
        },
{
    if target != TripleTarget::Predicate {
        assert(completions_view(request@) =~= completions_view(request@) + Seq::<
            SimpleCompletionV,
        >::empty());
        return ;
    }
    let ghost ds = property_docs(defined@);
    let ghost ls = strs_view(links@);
    let ghost start = completions_view(request@);
    let mut i: usize = 0;
    while i < defined.len()
        invariant
            0 <= i <= defined.len(),
            ds == property_docs(defined@),
            ls == strs_view(links@),
            start == completions_view(old(request)@),
            target == TripleTarget::Predicate,
            completions_view(request@) + linked_items(
                turtle@,
                word@,
                range,
                CompletionKind::Property,
                ls,
                ds,
                i as int,
            ) == start + linked_items(turtle@, word@, range, CompletionKind::Property, ls, ds, 0),
        decreases defined.len() - i,
    {
        let ghost before = completions_view(request@);
        let (label, properties) = (&defined[i].0, &defined[i].1);
        assert(ds[i as int] == (label@, property_terms(properties@)));
        if contains_str(links, label) {
            add_property_items(word, range, turtle, properties, request);
        }
        assert(completions_view(request@) + linked_items(
            turtle@,
            word@,
            range,
            CompletionKind::Property,
            ls,
            ds,
            i + 1,
        ) =~= before + linked_items(
            turtle@,
            word@,
            range,
            CompletionKind::Property,
            ls,
            ds,
            i as int,
        ));
        i = i + 1;
    }
    assert(completions_view(request@) =~= completions_view(request@) + linked_items(
        turtle@,
        word@,
        range,
        CompletionKind::Property,
        ls,
        ds,
        i as int,
    ));
}

/// The part of `w` before its first `:`, or all of it.
pub open spec fn before_colon(w: Seq<char>) -> Seq<char> {
    match index_from(w, ':', 0) {
        Some(i) => w.take(i),
        None => w,
    }
}

/// The completion offering the declared prefix of `p` where it starts with
/// `pref`: the prefix and a colon replace the word at `range`, with the
/// declared IRI as documentation.
pub open spec fn prefix_item(d: TurtleV, pref: Seq<char>, range: TextRange, p: PrefixV) -> Option<
    SimpleCompletionV,
> {
    let name = p.prefix.0;
    if strip_prefix_spec(name, pref) is Some {
        Some(
            SimpleCompletionV {
                kind: CompletionKind::Module,
                label: name,
                documentation: expand_full(p.value.0, d),
                sort_text: None,
                filter_text: None,
                edits: seq![TextEditV { new_text: name + ":"@, range }],
            },
        )
    } else {
        None
    }
}

/// The completions from the declarations from the `j`-th on.
pub open spec fn prefix_items(
    d: TurtleV,
    pref: Seq<char>,
    range: TextRange,
    ps: Seq<(PrefixV, Span)>,
    j: int,
) -> Seq<SimpleCompletionV>
    decreases ps.len() - j,
{
    if !(0 <= j < ps.len()) {
        Seq::empty()
    } else {
        let rest = prefix_items(d, pref, range, ps, j + 1);
        match prefix_item(d, pref, range, ps[j].0) {
            Some(c) => seq![c] + rest,
            None => rest,
        }
    }
}

/// The completion offers text that starts with the word being written.
pub open spec fn offers_word(c: SimpleCompletionV, word: Seq<char>) -> bool {
    &&& strip_prefix_spec(c.label, word) is Some
    &&& c.edits.len() == 1
    &&& c.edits[0].new_text == c.label
}

/// Every class or property offered is written, in label and edit, as text
/// that starts with the word being completed.
pub proof fn lemma_vocab_items_start_with_word(
    d: TurtleV,
    word: Seq<char>,
    range: TextRange,
    kind: CompletionKind,
    links: Seq<Seq<char>>,
    docs: Seq<(Seq<char>, Seq<(Seq<char>, Seq<char>)>)>,
    i: int,
)
    requires
        0 <= i,
    ensures
        forall|k: int|
            0 <= k < linked_items(d, word, range, kind, links, docs, i).len() ==> offers_word(
                #[trigger] linked_items(d, word, range, kind, links, docs, i)[k],
                word,
            ),
    decreases docs.len() - i,
{
    if i < docs.len() {
        lemma_vocab_items_start_with_word(d, word, range, kind, links, docs, i + 1);
        lemma_terms_start_with_word(d, word, range, kind, docs[i].1, 0);
        let rest = linked_items(d, word, range, kind, links, docs, i + 1);
        let all = linked_items(d, word, range, kind, links, docs, i);
        if links.contains(docs[i].0) {
            let here = vocab_items(d, word, range, kind, docs[i].1, 0);
            assert(all == here + rest);
            assert forall|k: int| 0 <= k < all.len() implies offers_word(
                #[trigger] all[k],
                word,
            ) by {
                if k < here.len() {
                    assert(all[k] == here[k]);
                } else {
                    assert(all[k] == rest[k - here.len()]);
                }
            }
        } else {
            assert(all == rest);
        }
    }
}

proof fn lemma_terms_start_with_word(
    d: TurtleV,
    word: Seq<char>,
    range: TextRange,
    kind: CompletionKind,
    terms: Seq<(Seq<char>, Seq<char>)>,
    j: int,
)
    requires
        0 <= j,
    ensures
        forall|k: int|
            0 <= k < vocab_items(d, word, range, kind, terms, j).len() ==> offers_word(
                #[trigger] vocab_items(d, word, range, kind, terms, j)[k],
                word,
            ),
    decreases terms.len() - j,
{
    if 0 <= j < terms.len() {
        lemma_terms_start_with_word(d, word, range, kind, terms, j + 1);
        let rest = vocab_items(d, word, range, kind, terms, j + 1);
        let all = vocab_items(d, word, range, kind, terms, j);
        match vocab_item(d, word, range, kind, terms[j].0, terms[j].1) {
            Some(c) => {
                assert(all == seq![c] + rest);
                assert(offers_word(c, word));
                assert forall|k: int| 0 <= k < all.len() implies offers_word(
                    #[trigger] all[k],
                    word,
                ) by {
                    if k > 0 {
                        assert(all[k] == rest[k - 1]);
                    }
                }
            },
            None => {
                assert(all == rest);
            },
        }
    }
}

/// Every prefix offered starts with the part of the word before its colon,
/// and is inserted followed by a colon.
pub proof fn lemma_prefix_items_start_with_word(
    d: TurtleV,
    pref: Seq<char>,
    range: TextRange,
    ps: Seq<(PrefixV, Span)>,
    j: int,
)
    requires
        0 <= j,
    ensures
        forall|k: int|
            0 <= k < prefix_items(d, pref, range, ps, j).len() ==> {
                let c = #[trigger] prefix_items(d, pref, range, ps, j)[k];
                &&& strip_prefix_spec(c.label, pref) is Some
                &&& c.edits == seq![TextEditV { new_text: c.label + ":"@, range }]
            },
    decreases ps.len() - j,
{
    if j < ps.len() {
        lemma_prefix_items_start_with_word(d, pref, range, ps, j + 1);
    }
}

/// The part of `w` before its first `:`, or all of it.
fn before_colon_exec(w: &str) -> (r: String)
    ensures
        r@ == before_colon(w@),
{
    let cs = chars_of(w);
    let mut i: usize = 0;
    while i < cs.len() && cs[i] != ':'
        invariant
            0 <= i <= cs.len(),
            cs@ == w@,
            forall|k: int| 0 <= k < i ==> cs@[k] != ':',
            index_from(w@, ':', 0) == index_from(w@, ':', i as int),
        decreases cs.len() - i,
    {
        i = i + 1;
    }
    proof {
        lemma_index_from(w@, ':', i as int);
    }
    let r = string_of(&cs, 0, i);
    assert(i == cs.len() ==> r@ =~= w@);
    assert(r@ =~= w@.take(i as int));
    r
}

/// Adds the completions of the prefixes that `turtle` declares and that
/// start with the word `word` (at `range`) up to its first colon, in order.
pub fn turtle_prefix_completion(
    word: &str,
    range: TextRange,
    turtle: &Turtle,
    request: &mut Vec<SimpleCompletion>,
)
    ensures
        completions_view(final(request)@) == completions_view(old(request)@) + prefix_items(
            turtle@,
            before_colon(word@),
            range,
            turtle@.prefixes,
            0,
        ),
{
    let pref = before_colon_exec(word);
    let ghost ps = turtle@.prefixes;
    let ghost start = completions_view(request@);
    let mut j: usize = 0;
    while j < turtle.prefixes.len()
        invariant
            0 <= j <= turtle.prefixes.len(),
            ps == turtle@.prefixes,
            ps.len() == turtle.prefixes@.len(),
            start == completions_view(old(request)@),
            completions_view(request@) + prefix_items(turtle@, pref@, range, ps, j as int) == start
                + prefix_items(turtle@, pref@, range, ps, 0),
        decreases turtle.prefixes.len() - j,
    {
        let ghost before = completions_view(request@);
        let p = &turtle.prefixes[j].0;
        assert(ps[j as int].0 == p@);
        let name = p.prefix.0.as_str();
        match strip_prefix(name, pref.as_str()) {
            Some(_) => {
                let mut new_text = name.to_string();
                new_text.append(":");
                let edit = TextEdit { new_text, range };
                let c = SimpleCompletion {
                    kind: CompletionKind::Module,
                    label: name.to_string(),
                    documentation: p.value.0.expand(turtle),
                    sort_text: None,
                    filter_text: None,
                    edits: vec![edit],
                };
                request.push(c);
                assert(c@.edits =~= seq![edit@]);
                assert(completions_view(request@) =~= before.push(c@));
            },
            None => {},
        }
        assert(completions_view(request@) + prefix_items(turtle@, pref@, range, ps, j + 1)
            =~= before + prefix_items(turtle@, pref@, range, ps, j as int));
        j = j + 1;
    }
    assert(completions_view(request@) =~= completions_view(request@) + prefix_items(
        turtle@,
        pref@,
        range,
        ps,
        j as int,
    ));
}

/// The edit that declares vocabulary `name` at `location` in `turtle`: at
/// the start of the document, or on the line after its base declaration.
pub fn undefined_prefix_edit(turtle: &Turtle, name: &str, location: &str) -> (r: TextEdit)
    ensures
        r@.new_text == "@prefix "@ + name@ + ": <"@ + location@ + ">.\n"@,
        r.range.start == r.range.end,
        r.range.start.character == 0,
        r.range.start.line == if turtle@.base is Some {
            1u32
        } else {
            0u32
        },
{
    let line: u32 = if turtle.base.is_some() {
        1
    } else {
        0
    };
    let start = crate::completion::Position { line, character: 0 };
    let mut new_text = String::from_str("@prefix ");
    new_text.append(name);
    new_text.append(": <");
    new_text.append(location);
    new_text.append(">.\n");
    TextEdit { new_text, range: TextRange { start, end: start } }
}

} // verus!
