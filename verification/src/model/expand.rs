//! Expansion of prefixed names against the document's prefix declarations.
use super::{
    seq_view, Base, BaseV, NamedNode, NamedNodeV, Prefix, PrefixV, Term, TermV, Triple, Turtle,
    TurtleV,
};
use crate::iri::{join_url, url_join};
use crate::text::{chars_of, string_of};
use crate::token::{Span, Spanned};
use vstd::prelude::*;
use vstd::string::StringExecFns;

verus! {

/// The IRI that the keyword `a` stands for.
pub open spec fn rdf_type_iri() -> Seq<char> {
    "http://www.w3.org/1999/02/22-rdf-syntax-ns#type"@
}

/// The first declaration of prefix `p`, if any.
pub open spec fn find_prefix(ps: Seq<(PrefixV, Span)>, p: Seq<char>) -> Option<int>
    decreases ps.len(),
{
    if ps.len() == 0 {
        None
    } else {
        match find_prefix(ps.drop_last(), p) {
            Some(i) => Some(i),
            None => if ps.last().0.prefix.0 == p {
                Some(ps.len() - 1)
            } else {
                None
            },
        }
    }
}

/// The number of declarations whose prefix is not in `done`.
pub open spec fn count_fresh(ps: Seq<(PrefixV, Span)>, done: Seq<Seq<char>>) -> nat
    decreases ps.len(),
{
    if ps.len() == 0 {
        0
    } else {
        count_fresh(ps.drop_last(), done) + if done.contains(ps.last().0.prefix.0) {
            0nat
        } else {
            1nat
        }
    }
}

pub proof fn lemma_find_prefix(ps: Seq<(PrefixV, Span)>, p: Seq<char>)
    ensures
        find_prefix(ps, p) matches Some(i) ==> 0 <= i < ps.len() && ps[i].0.prefix.0 == p
            && forall|k: int| 0 <= k < i ==> ps[k].0.prefix.0 != p,
        find_prefix(ps, p) is None ==> forall|k: int| 0 <= k < ps.len() ==> ps[k].0.prefix.0 != p,
    decreases ps.len(),
{
    if ps.len() > 0 {
        lemma_find_prefix(ps.drop_last(), p);
        assert(forall|k: int| 0 <= k < ps.len() - 1 ==> ps.drop_last()[k] == ps[k]);
    }
}

/// Marking a declared prefix as done leaves fewer fresh declarations.
pub proof fn lemma_count_fresh(ps: Seq<(PrefixV, Span)>, done: Seq<Seq<char>>, p: Seq<char>, i: int)
    requires
        0 <= i < ps.len(),
        ps[i].0.prefix.0 == p,
        !done.contains(p),
    ensures
        count_fresh(ps, done.push(p)) < count_fresh(ps, done),
    decreases ps.len(),
{
    lemma_count_fresh_le(ps.drop_last(), done, p);
    if i < ps.len() - 1 {
        lemma_count_fresh(ps.drop_last(), done, p, i);
    }
    assert(done.push(p).contains(p)) by {
        assert(done.push(p)[done.len() as int] == p);
    }
    assert(done.contains(ps.last().0.prefix.0) ==> done.push(p).contains(ps.last().0.prefix.0)) by {
        if done.contains(ps.last().0.prefix.0) {
            let k = choose|k: int| 0 <= k < done.len() && done[k] == ps.last().0.prefix.0;
            assert(done.push(p)[k] == ps.last().0.prefix.0);
        }
    }
}

pub proof fn lemma_count_fresh_le(ps: Seq<(PrefixV, Span)>, done: Seq<Seq<char>>, p: Seq<char>)
    ensures
        count_fresh(ps, done.push(p)) <= count_fresh(ps, done),
    decreases ps.len(),
{
    if ps.len() > 0 {
        lemma_count_fresh_le(ps.drop_last(), done, p);
        if done.contains(ps.last().0.prefix.0) {
            let k = choose|k: int| 0 <= k < done.len() && done[k] == ps.last().0.prefix.0;
            assert(done.push(p)[k] == ps.last().0.prefix.0);
        }
    }
}

/// The full IRI text of a node: an IRI as written, a prefixed name with its
/// prefix replaced by the expansion of the first declaration of that prefix
/// (`None` where none is declared, or where the declarations loop back to a
/// prefix in `done`), the `rdf:type` IRI for `a`.
pub open spec fn expand_spec(n: NamedNodeV, ps: Seq<(PrefixV, Span)>, done: Seq<Seq<char>>) -> Option<
    Seq<char>,
>
    decreases count_fresh(ps, done),
{
    match n {
        NamedNodeV::Full(s) => Some(s),
        NamedNodeV::Prefixed { prefix, value } => if done.contains(prefix) {
            None
        } else {
            match find_prefix(ps, prefix) {
                None => None,
                Some(i) => {
                    proof {
                        lemma_find_prefix(ps, prefix);
                        lemma_count_fresh(ps, done, prefix, i);
                    }
                    match expand_spec(ps[i].0.value.0, ps, done.push(prefix)) {
                        Some(e) => Some(e + value),
                        None => None,
                    }
                }
            }
        },
        NamedNodeV::A => Some(rdf_type_iri()),
        NamedNodeV::Invalid => None,
    }
}

/// The prefixes followed while expanding `n`, in order: each prefixed name
/// whose prefix is declared and not yet followed leads to the node its first
/// declaration names.
pub open spec fn expand_chain(n: NamedNodeV, ps: Seq<(PrefixV, Span)>, done: Seq<Seq<char>>) -> Seq<
    Seq<char>,
>
    decreases count_fresh(ps, done),
{
    match n {
        NamedNodeV::Prefixed { prefix, value: _ } => if done.contains(prefix) {
            Seq::empty()
        } else {
            match find_prefix(ps, prefix) {
                None => Seq::empty(),
                Some(i) => {
                    proof {
                        lemma_find_prefix(ps, prefix);
                        lemma_count_fresh(ps, done, prefix, i);
                    }
                    seq![prefix] + expand_chain(ps[i].0.value.0, ps, done.push(prefix))
                },
            }
        },
        _ => Seq::empty(),
    }
}

/// Expanding follows each declared prefix at most once: the prefixes it
/// follows are distinct, each declared, none of them already in `done`,
/// and no more than the declarations whose prefix is not in `done`.
pub proof fn lemma_expand_chain(n: NamedNodeV, ps: Seq<(PrefixV, Span)>, done: Seq<Seq<char>>)
    ensures
        ({
            let c = expand_chain(n, ps, done);
            &&& forall|a: int, b: int| 0 <= a < b < c.len() ==> #[trigger] c[a] != #[trigger] c[b]
            &&& forall|a: int| 0 <= a < c.len() ==> find_prefix(ps, #[trigger] c[a]) is Some
                && !done.contains(c[a])
            &&& c.len() <= count_fresh(ps, done)
        }),
    decreases count_fresh(ps, done),
{
    match n {
        NamedNodeV::Prefixed { prefix, value: _ } => if !done.contains(prefix) {
            match find_prefix(ps, prefix) {
                Some(i) => {
                    lemma_find_prefix(ps, prefix);
                    lemma_count_fresh(ps, done, prefix, i);
                    let d2 = done.push(prefix);
                    lemma_expand_chain(ps[i].0.value.0, ps, d2);
                    let rest = expand_chain(ps[i].0.value.0, ps, d2);
                    let c = seq![prefix] + rest;
                    assert(d2.contains(prefix)) by {
                        assert(d2[done.len() as int] == prefix);
                    }
                    assert forall|a: int| 0 <= a < c.len() implies find_prefix(ps, #[trigger] c[a])
                        is Some && !done.contains(c[a]) by {
                        if a > 0 {
                            assert(c[a] == rest[a - 1]);
                            if done.contains(c[a]) {
                                let k = choose|k: int| 0 <= k < done.len() && done[k] == c[a];
                                assert(d2[k] == c[a]);
                            }
                        }
                    }
                    assert forall|a: int, b: int| 0 <= a < b < c.len() implies #[trigger] c[a]
                        != #[trigger] c[b] by {
                        assert(c[b] == rest[b - 1]);
                        if a > 0 {
                            assert(c[a] == rest[a - 1]);
                        }
                    }
                },
                None => {},
            }
        },
        _ => {},
    }
}

/// The node reached from `n` after `k` steps, each going from a prefixed
/// name to what the first declaration of its prefix names.
pub open spec fn follows(ps: Seq<(PrefixV, Span)>, n: NamedNodeV, k: nat) -> Option<NamedNodeV>
    decreases k,
{
    if k == 0 {
        Some(n)
    } else {
        match n {
            NamedNodeV::Prefixed { prefix, value: _ } => match find_prefix(ps, prefix) {
                Some(i) => follows(ps, ps[i].0.value.0, (k - 1) as nat),
                None => None,
            },
            _ => None,
        }
    }
}

pub open spec fn prefix_of(n: NamedNodeV) -> Option<Seq<char>> {
    match n {
        NamedNodeV::Prefixed { prefix, value: _ } => Some(prefix),
        _ => None,
    }
}

proof fn lemma_expand_cycle_from(
    ps: Seq<(PrefixV, Span)>,
    n: NamedNodeV,
    done: Seq<Seq<char>>,
    k: nat,
    q: Seq<char>,
)
    requires
        follows(ps, n, k) matches Some(m) && prefix_of(m) == Some(q),
        done.contains(q) || (k > 0 && prefix_of(n) == Some(q)),
    ensures
        expand_spec(n, ps, done) is None,
    decreases k,
{
    match n {
        NamedNodeV::Prefixed { prefix, value } => {
            if !done.contains(prefix) {
                if k == 0 {
                    assert(prefix == q);
                } else {
                    match find_prefix(ps, prefix) {
                        Some(i) => {
                            lemma_find_prefix(ps, prefix);
                            lemma_count_fresh(ps, done, prefix, i);
                            let d2 = done.push(prefix);
                            assert(d2.contains(q)) by {
                                if done.contains(q) {
                                    let j = choose|j: int| 0 <= j < done.len() && done[j] == q;
                                    assert(d2[j] == q);
                                } else {
                                    assert(d2[done.len() as int] == q);
                                }
                            }
                            lemma_expand_cycle_from(ps, ps[i].0.value.0, d2, (k - 1) as nat, q);
                        },
                        None => {},
                    }
                }
            }
        },
        _ => {},
    }
}

/// A prefix whose declarations lead back to it never expands: where, after
/// one or more steps from a prefixed name, the chain of declarations reaches
/// a name with the same prefix, the expansion is `None`.
pub proof fn lemma_expand_cycle(ps: Seq<(PrefixV, Span)>, n: NamedNodeV, k: nat)
    requires
        k >= 1,
        prefix_of(n) is Some,
        follows(ps, n, k) matches Some(m) && prefix_of(m) == prefix_of(n),
    ensures
        expand_spec(n, ps, Seq::empty()) is None,
{
    lemma_expand_cycle_from(ps, n, Seq::empty(), k, prefix_of(n)->0);
}

/// The named node of a term, if it is one.
pub open spec fn term_named_node(t: TermV) -> Option<NamedNodeV> {
    match t {
        TermV::NamedNode(n) => Some(n),
        _ => None,
    }
}

pub open spec fn strs_view(v: Seq<String>) -> Seq<Seq<char>> {
    v.map_values(|s: String| s@)
}

/// Whether `done` holds `p`.
pub(crate) fn contains_str(done: &Vec<String>, p: &String) -> (r: bool)
    ensures
        r == strs_view(done@).contains(p@),
{
    let mut i: usize = 0;
    while i < done.len()
        invariant
            0 <= i <= done.len(),
            forall|k: int| 0 <= k < i ==> done@[k]@ != p@,
        decreases done.len() - i,
    {
        if done[i] == *p {
            assert(strs_view(done@)[i as int] == p@);
            return true;
        }
        i = i + 1;
    }
    proof {
        if strs_view(done@).contains(p@) {
            let k = choose|k: int| 0 <= k < strs_view(done@).len() && strs_view(done@)[k] == p@;
            assert(done@[k]@ == p@);
        }
    }
    false
}

impl Turtle {
    /// The index of the first declaration of prefix `p`.
    fn find_prefix(&self, p: &String) -> (r: Option<usize>)
        ensures
            match r {
                Some(i) => find_prefix(self@.prefixes, p@) == Some(i as int),
                None => find_prefix(self@.prefixes, p@) is None,
            },
    {
        proof {
            lemma_find_prefix(self@.prefixes, p@);
        }
        let mut i: usize = 0;
        while i < self.prefixes.len()
            invariant
                0 <= i <= self.prefixes.len(),
                forall|k: int| 0 <= k < i ==> self@.prefixes[k].0.prefix.0 != p@,
            decreases self.prefixes.len() - i,
        {
            if self.prefixes[i].0.prefix.0 == *p {
                assert(self@.prefixes[i as int].0.prefix.0 == p@);
                proof {
                    lemma_find_prefix(self@.prefixes, p@);
                }
                return Some(i);
            }
            i = i + 1;
        }
        None
    }
}

impl NamedNode {
    /// The full IRI text of the node, expanding a prefixed name through the
    /// declarations of `turtle`; prefixes in `done` are not followed again.
    pub fn expand_step(&self, turtle: &Turtle, done: Vec<String>) -> (r: Option<String>)
        ensures
            opt_str(r) == expand_spec(self@, turtle@.prefixes, strs_view(done@)),
        decreases count_fresh(turtle@.prefixes, strs_view(done@)),
    {
        match self {
            NamedNode::Full(s) => Some(s.clone()),
            NamedNode::Prefixed { prefix, value } => {
                if contains_str(&done, prefix) {
                    return None;
                }
                let mut done = done;
                let ghost d0 = strs_view(done@);
                done.push(prefix.clone());
                assert(strs_view(done@) =~= d0.push(prefix@));
                let i = match turtle.find_prefix(prefix) {
                    Some(i) => i,
                    None => return None,
                };
                proof {
                    lemma_find_prefix(turtle@.prefixes, prefix@);
                    lemma_count_fresh(turtle@.prefixes, d0, prefix@, i as int);
                }
                let e = turtle.prefixes[i].0.value.0.expand_step(turtle, done)?;
                let mut r = e;
                r.append(value.as_str());
                Some(r)
            },
            NamedNode::A => Some(String::from_str("http://www.w3.org/1999/02/22-rdf-syntax-ns#type")),
            NamedNode::Invalid => None,
        }
    }
}

impl Term {
    /// The node itself, if the term is a named node.
    pub fn named_node(&self) -> (r: Option<&NamedNode>)
        ensures
            match r {
                Some(n) => term_named_node(self@) == Some(n@),
                None => term_named_node(self@) is None,
            },
    {
        match self {
            Term::NamedNode(nn) => Some(nn),
            _ => None,
        }
    }

    /// The full IRI text of the term, if it is a named node.
    pub fn expand_step(&self, turtle: &Turtle, done: Vec<String>) -> (r: Option<String>)
        ensures
            opt_str(r) == match term_named_node(self@) {
                Some(n) => expand_spec(n, turtle@.prefixes, strs_view(done@)),
                None => None,
            },
    {
        match self.named_node() {
            Some(n) => n.expand_step(turtle, done),
            None => None,
        }
    }
}

pub open spec fn opt_str(o: Option<String>) -> Option<Seq<char>> {
    match o {
        Some(s) => Some(s@),
        None => None,
    }
}

/// The full IRI of a node, resolved against the document's location.
pub open spec fn expand_full(n: NamedNodeV, d: TurtleV) -> Option<Seq<char>> {
    match expand_spec(n, d.prefixes, Seq::empty()) {
        Some(e) => url_join(d.set_base, e),
        None => None,
    }
}

impl NamedNode {
    /// The full IRI of the node, resolved against the location of `turtle`.
    pub fn expand(&self, turtle: &Turtle) -> (r: Option<String>)
        ensures
            opt_str(r) == expand_full(self@, turtle@),
    {
        let done: Vec<String> = Vec::new();
        assert(strs_view(done@) =~= Seq::<Seq<char>>::empty());
        let out = self.expand_step(turtle, done)?;
        join_url(turtle.set_base.as_str(), out.as_str())
    }
}

impl Term {
    /// The full IRI of the term, if it is a named node.
    pub fn expand(&self, turtle: &Turtle) -> (r: Option<String>)
        ensures
            opt_str(r) == match term_named_node(self@) {
                Some(n) => expand_full(n, turtle@),
                None => None,
            },
    {
        self.named_node()?.expand(turtle)
    }
}

/// `s` without its leading `p`, if it starts with `p`.
pub open spec fn strip_prefix_spec(s: Seq<char>, p: Seq<char>) -> Option<Seq<char>> {
    if p.len() <= s.len() && s.take(p.len() as int) == p {
        Some(s.skip(p.len() as int))
    } else {
        None
    }
}

/// `s` without its leading `p`, if it starts with `p`.
pub fn strip_prefix(s: &str, p: &str) -> (r: Option<String>)
    ensures
        opt_str(r) == strip_prefix_spec(s@, p@),
{
    let sc = chars_of(s);
    let pc = chars_of(p);
    if pc.len() > sc.len() {
        return None;
    }
    let mut i: usize = 0;
    while i < pc.len()
        invariant
            pc.len() <= sc.len(),
            sc@ == s@,
            pc@ == p@,
            0 <= i <= pc.len(),
            forall|k: int| 0 <= k < i ==> sc@[k] == pc@[k],
        decreases pc.len() - i,
    {
        if sc[i] != pc[i] {
            assert(s@.take(p@.len() as int)[i as int] != p@[i as int]);
            return None;
        }
        i = i + 1;
    }
    assert(s@.take(p@.len() as int) =~= p@);
    let r = string_of(&sc, pc.len(), sc.len());
    assert(r@ =~= s@.skip(p@.len() as int));
    Some(r)
}

/// The prefixed form `pre:local` of `url` by declaration `p`, if `url`
/// starts with the expansion of the declared IRI.
pub open spec fn prefix_shorten(p: PrefixV, d: TurtleV, url: Seq<char>) -> Option<Seq<char>> {
    match expand_full(p.value.0, d) {
        Some(e) => match strip_prefix_spec(url, e) {
            Some(short) => Some(p.prefix.0 + ":"@ + short),
            None => None,
        },
        None => None,
    }
}

/// The prefixed form of `url` by the first declaration from `i` on that
/// gives one.
pub open spec fn shorten_from(d: TurtleV, url: Seq<char>, i: int) -> Option<Seq<char>>
    decreases d.prefixes.len() - i,
{
    if !(0 <= i < d.prefixes.len()) {
        None
    } else {
        match prefix_shorten(d.prefixes[i].0, d, url) {
            Some(x) => Some(x),
            None => shorten_from(d, url, i + 1),
        }
    }
}

impl Prefix {
    /// `url` as `pre:local` by this declaration, if `url` starts with the
    /// declared IRI.
    pub fn shorten(&self, turtle: &Turtle, url: &str) -> (r: Option<String>)
        ensures
            opt_str(r) == prefix_shorten(self@, turtle@, url@),
    {
        let prefix_url = self.value.0.expand(turtle)?;
        let short = strip_prefix(url, prefix_url.as_str())?;
        let mut r = self.prefix.0.clone();
        r.append(":");
        r.append(short.as_str());
        Some(r)
    }
}

/// The base declaration with its IRI resolved against `location`, where it
/// is written in full and resolves.
pub open spec fn resolved_base(b: BaseV, location: Seq<char>) -> BaseV {
    match b.1.0 {
        NamedNodeV::Full(s) => match url_join(location, s) {
            Some(ns) => BaseV(b.0, (NamedNodeV::Full(ns), b.1.1)),
            None => b,
        },
        _ => b,
    }
}

impl Base {
    /// Resolves a base IRI written in full against `location`; leaves it as
    /// it is where that fails or where it is no full IRI.
    pub fn resolve_location(&mut self, location: &str)
        ensures
            final(self)@ == resolved_base(old(self)@, location@),
    {
        match &mut self.1.0 {
            NamedNode::Full(s) => {
                match join_url(location, s.as_str()) {
                    Some(ns) => {
                        *s = ns;
                    },
                    None => {},
                }
            },
            _ => {},
        }
    }
}

impl Turtle {
    /// A document read from `location`, its base resolved against it.
    pub fn new(
        base: Option<Spanned<Base>>,
        prefixes: Vec<Spanned<Prefix>>,
        triples: Vec<Spanned<Triple>>,
        location: &str,
    ) -> (r: Turtle)
        ensures
            r@ == (TurtleV {
                base: match base {
                    Some(b) => Some((resolved_base(b.0@, location@), b.1)),
                    None => None,
                },
                set_base: location@,
                prefixes: seq_view(prefixes@),
                triples: seq_view(triples@),
            }),
    {
        let mut base = base;
        match &mut base {
            Some(b) => b.0.resolve_location(location),
            None => {},
        }
        Turtle { base, prefixes, triples, set_base: location.to_owned() }
    }

    /// The location the document was read from.
    pub fn get_base(&self) -> (r: &str)
        ensures
            r@ == self@.set_base,
    {
        self.set_base.as_str()
    }

    /// `url` as `pre:local` by the first prefix declaration that gives one.
    pub fn shorten(&self, url: &str) -> (r: Option<String>)
        ensures
            opt_str(r) == shorten_from(self@, url@, 0),
    {
        let mut i: usize = 0;
        while i < self.prefixes.len()
            invariant
                0 <= i <= self.prefixes.len(),
                shorten_from(self@, url@, 0) == shorten_from(self@, url@, i as int),
            decreases self.prefixes.len() - i,
        {
            let r = self.prefixes[i].0.shorten(self, url);
            if r.is_some() {
                return r;
            }
            i = i + 1;
        }
        None
    }
}

} // verus!
