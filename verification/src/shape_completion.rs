//! Completion from SHACL shapes: the shapes read from each document, kept
//! by document URL, give the properties of their classes and the snippets
//! that fill in an instance.
use crate::completion::{SimpleCompletion, SimpleCompletionV, TextRange};
use crate::green::{self, ClassProvider, PropertyProvider};
use crate::model::{Turtle, TurtleV};
use crate::shacl::{
    completions_view, find_snippets, lemma_shape_fits_kept, parse_shapes, properties_count,
    ranges_fit, shape_fits, shape_name, properties_given, fresh_in, fresh_ids,
    shapes_from, snippets_from, str_eq, Shape, ShapeV,
};
use crate::triples::builder::quads_view;
use crate::triples::Triples;
use vstd::prelude::*;

verus! {

/// The shapes read from each document, by document URL; each URL occurs
/// once.
pub struct ShapeCompletionProvider {
    shapes: Vec<(String, Vec<Shape>)>,
}

pub open spec fn shapes_view(v: Seq<Shape>) -> Seq<ShapeV> {
    v.map_values(|s: Shape| s@)
}

pub open spec fn entry_view(e: (String, Vec<Shape>)) -> (Seq<char>, Seq<ShapeV>) {
    (e.0@, shapes_view(e.1@))
}

/// No URL occurs twice.
pub open spec fn urls_distinct(es: Seq<(Seq<char>, Seq<ShapeV>)>) -> bool {
    forall|i: int, j: int| 0 <= i < j < es.len() ==> #[trigger] es[i].0 != #[trigger] es[j].0
}

/// Where `url` is kept, if it is.
pub open spec fn url_index(es: Seq<(Seq<char>, Seq<ShapeV>)>, url: Seq<char>) -> Option<int> {
    if exists|i: int| 0 <= i < es.len() && #[trigger] es[i].0 == url {
        Some(choose|i: int| 0 <= i < es.len() && #[trigger] es[i].0 == url)
    } else {
        None
    }
}

/// The shapes kept for `url`.
pub open spec fn shapes_of(es: Seq<(Seq<char>, Seq<ShapeV>)>, url: Seq<char>) -> Option<
    Seq<ShapeV>,
> {
    match url_index(es, url) {
        Some(i) => Some(es[i].1),
        None => None,
    }
}

/// The snippets of the shapes kept in the first `n` entries, entry by
/// entry.
pub open spec fn snippets_upto(
    es: Seq<(Seq<char>, Seq<ShapeV>)>,
    class: Seq<char>,
    d: TurtleV,
    range: TextRange,
    n: int,
) -> Seq<SimpleCompletionV>
    decreases n,
{
    if n <= 0 || n > es.len() {
        Seq::empty()
    } else {
        snippets_upto(es, class, d, range, n - 1) + snippets_from(es[n - 1].1, class, d, range, 0)
    }
}

/// `r` is what the shapes give, shape by shape, with the ids of provider
/// `p`, fresh ids being given after `a`.
pub open spec fn all_fit<P: ClassProvider>(
    shapes: Seq<ShapeV>,
    r: Seq<green::PropertyV>,
    a: P,
    p: P,
) -> bool
    decreases shapes.len(),
{
    if shapes.len() == 0 {
        r.len() == 0
    } else {
        let c = properties_count(shapes[0]) as int;
        &&& c <= r.len()
        &&& shape_fits(shapes[0], r.take(c), a, p)
        &&& all_fit(shapes.drop_first(), r.skip(c), a, p)
    }
}

proof fn lemma_fits_len<P: ClassProvider>(s: ShapeV, y: Seq<green::PropertyV>, a: P, p: P)
    requires
        shape_fits(s, y, a, p),
    ensures
        y.len() == properties_count(s),
{
    let (ranges, origin, target) = choose|ranges: Seq<usize>, origin: usize, target: usize|
        ranges_fit(s, ranges, p, s.properties.len() as int) && fresh_in(
            fresh_ids(s, ranges, origin, target),
            a,
            p,
        ) && y == properties_given(
s, p.id_of(shape_name(s)),
            ranges,
            origin,
            target,
        );
}

proof fn lemma_all_fit_push<P: ClassProvider>(
    a: Seq<ShapeV>,
    x: Seq<green::PropertyV>,
    s: ShapeV,
    y: Seq<green::PropertyV>,
    a0: P,
    p: P,
)
    requires
        all_fit(a, x, a0, p),
        shape_fits(s, y, a0, p),
    ensures
        all_fit(a.push(s), x + y, a0, p),
    decreases a.len(),
{
    lemma_fits_len(s, y, a0, p);
    let c = properties_count(s) as int;
    let b = a.push(s);
    if a.len() == 0 {
        assert(x.len() == 0);
        assert(b[0] == s);
        assert(x + y =~= y);
        assert(y.take(c) =~= y);
        assert(b.drop_first() =~= Seq::<ShapeV>::empty());
        assert(y.skip(c) =~= Seq::<green::PropertyV>::empty());
        assert(all_fit(b.drop_first(), (x + y).skip(c), a0, p));
        assert(shape_fits(b[0], (x + y).take(c), a0, p));
    } else {
        let c0 = properties_count(a[0]) as int;
        lemma_all_fit_push(a.drop_first(), x.skip(c0), s, y, a0, p);
        assert(b[0] == a[0]);
        assert(b.drop_first() =~= a.drop_first().push(s));
        assert((x + y).take(c0) =~= x.take(c0));
        assert((x + y).skip(c0) =~= x.skip(c0) + y);
        assert(shape_fits(b[0], (x + y).take(c0), a0, p));
        assert(all_fit(b.drop_first(), (x + y).skip(c0), a0, p));
    }
}

proof fn lemma_all_fit_kept<P: ClassProvider>(
    a: Seq<ShapeV>,
    x: Seq<green::PropertyV>,
    a0: P,
    p: P,
    q: P,
)
    requires
        all_fit(a, x, a0, p),
        green::keeps(p, q),
    ensures
        all_fit(a, x, a0, q),
    decreases a.len(),
{
    if a.len() > 0 {
        let c = properties_count(a[0]) as int;
        green::lemma_keeps_refl(a0);
        lemma_shape_fits_kept(a[0], x.take(c), a0, a0, p, q);
        lemma_all_fit_kept(a.drop_first(), x.skip(c), a0, p, q);
    }
}

impl View for ShapeCompletionProvider {
    type V = Seq<(Seq<char>, Seq<ShapeV>)>;

    closed spec fn view(&self) -> Seq<(Seq<char>, Seq<ShapeV>)> {
        self.shapes@.map_values(|e: (String, Vec<Shape>)| entry_view(e))
    }
}

impl ShapeCompletionProvider {
    #[verifier::type_invariant]
    closed spec fn inv(self) -> bool {
        urls_distinct(self@)
    }

    /// The shapes read from `triples`, kept for its URL in place of those
    /// kept before, and the properties they give, shape by shape.
    fn set_shapes<P: ClassProvider>(&mut self, triples: &Triples, provider: &mut P) -> (r: Vec<
        green::Property,
    >)
        ensures
            all_fit(
                shapes_from(quads_view(triples.triples@), 0),
                green::properties_view(r@),
                *old(provider),
                *final(provider),
            ),
            green::keeps(*old(provider), *final(provider)),
            final(self)@ == match url_index(old(self)@, triples.base_url@) {
                Some(i) => old(self)@.update(
                    i,
                    (triples.base_url@, shapes_from(quads_view(triples.triples@), 0)),
                ),
                None => old(self)@.push(
                    (triples.base_url@, shapes_from(quads_view(triples.triples@), 0)),
                ),
            },
    {
        proof {
            use_type_invariant(&*self);
        }
        let shapes = parse_shapes(triples);
        let ghost sv = shapes_view(shapes@);
        let mut out: Vec<green::Property> = Vec::new();
        let mut i: usize = 0;
        while i < shapes.len()
            invariant
                0 <= i <= shapes.len(),
                sv == shapes_view(shapes@),
                all_fit(sv.take(i as int), green::properties_view(out@), *old(provider), *provider),
                green::keeps(*old(provider), *provider),
            decreases shapes.len() - i,
        {
            let ghost p0 = *provider;
            let mut props = shapes[i].get_properties(provider);
            let ghost before = out@;
            let ghost pv = green::properties_view(props@);
            out.append(&mut props);
            assert(green::properties_view(out@) =~= green::properties_view(before) + pv);
            proof {
                assert(sv[i as int] == shapes@[i as int]@);
                lemma_all_fit_kept(
                    sv.take(i as int),
                    green::properties_view(before),
                    *old(provider),
                    p0,
                    *provider,
                );
                green::lemma_keeps_refl(*provider);
                lemma_shape_fits_kept(sv[i as int], pv, *old(provider), p0, *provider, *provider);
                green::lemma_keeps_trans(*old(provider), p0, *provider);
                lemma_all_fit_push(
                    sv.take(i as int),
                    green::properties_view(before),
                    sv[i as int],
                    pv,
                    *old(provider),
                    *provider,
                );
                assert(sv.take(i as int).push(sv[i as int]) =~= sv.take(i + 1));
            }
            i = i + 1;
        }
        proof {
            assert(sv.take(i as int) =~= sv);
        }
        self.keep(triples.base_url.clone(), shapes);
        out
    }

    /// Keeps `shapes` for `url`, in place of those kept before.
    fn keep(&mut self, url: String, shapes: Vec<Shape>)
        ensures
            final(self)@ == match url_index(old(self)@, url@) {
                Some(i) => old(self)@.update(i, (url@, shapes_view(shapes@))),
                None => old(self)@.push((url@, shapes_view(shapes@))),
            },
    {
        proof {
            use_type_invariant(&*self);
        }
        let ghost es = self@;
        let mut i: usize = 0;
        while i < self.shapes.len()
            invariant
                0 <= i <= self.shapes.len(),
                es == self@,
                es == old(self)@,
                urls_distinct(es),
                es.len() == self.shapes@.len(),
                forall|j: int| 0 <= j < i ==> #[trigger] es[j].0 != url@,
            decreases self.shapes.len() - i,
        {
            assert(es[i as int] == entry_view(self.shapes@[i as int]));
            if str_eq(self.shapes[i].0.as_str(), url.as_str()) {
                let ghost at = i as int;
                proof {
                    lemma_url_index_unique(es, url@, at);
                }
                let mut entries = Vec::new();
                std::mem::swap(&mut entries, &mut self.shapes);
                entries.set(i, (url, shapes));
                proof {
                    let new = entries@.map_values(|e: (String, Vec<Shape>)| entry_view(e));
                    assert(new =~= es.update(at, (url@, shapes_view(shapes@))));
                    assert forall|a: int, b: int| 0 <= a < b < new.len() implies #[trigger] new[a].0
                        != #[trigger] new[b].0 by {
                        if a != at && b != at {
                            assert(new[a] == es[a] && new[b] == es[b]);
                        } else if a == at {
                            assert(new[b] == es[b]);
                            assert(es[at].0 != es[b].0);
                        } else {
                            assert(new[a] == es[a]);
                            assert(es[a].0 != es[at].0);
                        }
                    }
                }
                self.shapes = entries;
                return ;
            }
            i = i + 1;
        }
        proof {
            lemma_url_index_of(es, url@);
        }
        let mut entries = Vec::new();
        std::mem::swap(&mut entries, &mut self.shapes);
        entries.push((url, shapes));
        proof {
            let new = entries@.map_values(|e: (String, Vec<Shape>)| entry_view(e));
            assert(new =~= es.push((url@, shapes_view(shapes@))));
            assert forall|a: int, b: int| 0 <= a < b < new.len() implies #[trigger] new[a].0
                != #[trigger] new[b].0 by {
                assert(new[a] == es[a]);
                if b < es.len() {
                    assert(new[b] == es[b]);
                }
            }
        }
        self.shapes = entries;
    }

    /// Adds to `completions` the snippet of each kept shape whose name is
    /// `class`: document by document, in the order they were first kept, and
    /// in each in the order of its shapes.
    pub fn find_snippets(
        &self,
        class: &str,
        turtle: &Turtle,
        range: TextRange,
        completions: &mut Vec<SimpleCompletion>,
    )
        ensures
            completions_view(final(completions)@) == completions_view(old(completions)@)
                + snippets_upto(self@, class@, turtle@, range, self@.len() as int),
    {
        let ghost es = self@;
        let mut i: usize = 0;
        while i < self.shapes.len()
            invariant
                0 <= i <= self.shapes.len(),
                es == self@,
                es.len() == self.shapes@.len(),
                completions_view(completions@) == completions_view(old(completions)@)
                    + snippets_upto(es, class@, turtle@, range, i as int),
            decreases self.shapes.len() - i,
        {
            let ghost before = completions_view(completions@);
            assert(es[i as int] == entry_view(self.shapes@[i as int]));
            find_snippets(&self.shapes[i].1, class, turtle, range, completions);
            assert(completions_view(old(completions)@) + snippets_upto(
                es,
                class@,
                turtle@,
                range,
                i + 1,
            ) =~= before + snippets_from(es[i as int].1, class@, turtle@, range, 0));
            i = i + 1;
        }
    }
}

impl Clone for ShapeCompletionProvider {
    /// A copy that keeps shapes for the same URLs, in the same order.
    fn clone(&self) -> (r: Self)
        ensures
            r@.len() == self@.len(),
            forall|i: int| 0 <= i < self@.len() ==> #[trigger] r@[i].0 == self@[i].0,
    {
        proof {
            use_type_invariant(self);
        }
        let ghost es = self@;
        let mut shapes: Vec<(String, Vec<Shape>)> = Vec::new();
        let mut i: usize = 0;
        while i < self.shapes.len()
            invariant
                0 <= i <= self.shapes.len(),
                es == self@,
                urls_distinct(es),
                shapes@.len() == i,
                forall|j: int| 0 <= j < i ==> #[trigger] shapes@[j].0@ == es[j].0,
            decreases self.shapes.len() - i,
        {
            assert(es[i as int] == entry_view(self.shapes@[i as int]));
            let url = self.shapes[i].0.clone();
            let kept = self.shapes[i].1.clone();
            shapes.push((url, kept));
            i = i + 1;
        }
        let r = ShapeCompletionProvider { shapes };
        proof {
            assert forall|j: int| 0 <= j < es.len() implies #[trigger] r@[j].0 == es[j].0 by {
                assert(r@[j] == entry_view(shapes@[j]));
            }
            assert forall|a: int, b: int| 0 <= a < b < r@.len() implies #[trigger] r@[a].0
                != #[trigger] r@[b].0 by {
                assert(r@[a].0 == es[a].0 && r@[b].0 == es[b].0);
            }
        }
        r
    }
}

impl Default for ShapeCompletionProvider {
    /// No shapes kept.
    fn default() -> (r: Self)
        ensures
            r@ == Seq::<(Seq<char>, Seq<ShapeV>)>::empty(),
    {
        let r = ShapeCompletionProvider { shapes: Vec::new() };
        assert(r@ =~= Seq::<(Seq<char>, Seq<ShapeV>)>::empty());
        r
    }
}

impl PropertyProvider for ShapeCompletionProvider {
    /// Reads the shapes of `triples` and keeps them for its URL; gives the
    /// properties they describe.
    fn provide<P: ClassProvider>(&mut self, triples: &Triples, class_provider: &mut P) -> (r: Vec<
        green::Property,
    >)
        ensures
            all_fit(
                shapes_from(quads_view(triples.triples@), 0),
                green::properties_view(r@),
                *old(class_provider),
                *final(class_provider),
            ),
            green::keeps(*old(class_provider), *final(class_provider)),
            shapes_of(final(self)@, triples.base_url@) == Some(
                shapes_from(quads_view(triples.triples@), 0),
            ),
            forall|url: Seq<char>|
                url != triples.base_url@ ==> #[trigger] shapes_of(final(self)@, url) == shapes_of(
                    old(self)@,
                    url,
                ),
    {
        proof {
            use_type_invariant(&*self);
        }
        let r = self.set_shapes(triples, class_provider);
        proof {
            use_type_invariant(&*self);
            lemma_keep_lookup(old(self)@, triples.base_url@, shapes_from(quads_view(triples.triples@), 0));
        }
        r
    }
}

/// Keeping shapes for a URL: afterwards that URL has them, and every
/// other URL has what it had.
pub proof fn lemma_keep_lookup(
    es: Seq<(Seq<char>, Seq<ShapeV>)>,
    url: Seq<char>,
    shapes: Seq<ShapeV>,
)
    requires
        urls_distinct(es),
    ensures
        ({
            let new = match url_index(es, url) {
                Some(i) => es.update(i, (url, shapes)),
                None => es.push((url, shapes)),
            };
            &&& urls_distinct(new)
            &&& shapes_of(new, url) == Some(shapes)
            &&& forall|other: Seq<char>|
                other != url ==> #[trigger] shapes_of(new, other) == shapes_of(es, other)
        }),
{
    lemma_url_index_of(es, url);
    let w = match url_index(es, url) {
        Some(i) => i,
        None => es.len() as int,
    };
    let new = match url_index(es, url) {
        Some(i) => es.update(i, (url, shapes)),
        None => es.push((url, shapes)),
    };
    assert(new.len() == es.len() || new.len() == es.len() + 1);
    assert(0 <= w < new.len() && new[w] == (url, shapes));
    assert forall|k: int| 0 <= k < new.len() && k != w implies #[trigger] new[k] == es[k] by {}
    assert forall|k: int| 0 <= k < es.len() && k != w implies es[k].0 != url by {
        if url_index(es, url) is Some {
            assert(es[w].0 == url);
            if k < w {
                assert(es[k].0 != es[w].0);
            } else {
                assert(es[w].0 != es[k].0);
            }
        }
    }
    assert forall|a: int, b: int| 0 <= a < b < new.len() implies #[trigger] new[a].0
        != #[trigger] new[b].0 by {
        if a != w && b != w {
            assert(new[a] == es[a] && new[b] == es[b]);
        } else if a == w {
            assert(new[b] == es[b]);
        } else {
            assert(new[a] == es[a]);
        }
    }
    assert(urls_distinct(new));
    lemma_url_index_unique(new, url, w);
    assert(shapes_of(new, url) == Some(shapes));
    assert forall|other: Seq<char>| other != url implies #[trigger] shapes_of(new, other)
        == shapes_of(es, other) by {
        lemma_url_index_of(es, other);
        lemma_url_index_of(new, other);
        match url_index(es, other) {
            Some(k) => {
                assert(k != w);
                assert(new[k] == es[k]);
                lemma_url_index_unique(new, other, k);
            },
            None => {
                match url_index(new, other) {
                    Some(k) => {
                        assert(k != w);
                        assert(new[k] == es[k]);
                    },
                    None => {},
                }
            },
        }
    }
}

/// Where `url` is kept, if anywhere, it is kept there.
proof fn lemma_url_index_of(es: Seq<(Seq<char>, Seq<ShapeV>)>, url: Seq<char>)
    ensures
        match url_index(es, url) {
            Some(i) => 0 <= i < es.len() && es[i].0 == url,
            None => forall|k: int| 0 <= k < es.len() ==> #[trigger] es[k].0 != url,
        },
{
}

/// With distinct URLs, the place of a URL is the one it is kept at.
proof fn lemma_url_index_unique(es: Seq<(Seq<char>, Seq<ShapeV>)>, url: Seq<char>, k: int)
    requires
        urls_distinct(es),
        0 <= k < es.len(),
        es[k].0 == url,
    ensures
        url_index(es, url) == Some(k),
{
    lemma_url_index_of(es, url);
    let i = url_index(es, url)->0;
    if i != k {
        if i < k {
            assert(es[i].0 != es[k].0);
        } else {
            assert(es[k].0 != es[i].0);
        }
    }
}

} // verus!
