//! Class and property descriptions that vocabularies contribute to
//! completion: which properties a class has and what their values are.
use crate::triples::{MyTerm, MyTermV, Triples};
use vstd::prelude::*;

verus! {

/// What the values of a property are: instances of a class, known by the
/// id a class provider gave it, or values of a datatype.
#[derive(Clone, Debug)]
pub enum Range {
    Class(usize),
    Primitive(&'static str),
}

pub enum RangeV {
    Class(usize),
    Primitive(Seq<char>),
}

impl View for Range {
    type V = RangeV;

    open spec fn view(&self) -> RangeV {
        match self {
            Range::Class(c) => RangeV::Class(*c),
            Range::Primitive(s) => RangeV::Primitive(s@),
        }
    }
}

/// A property of the instances of the class `domain`.
#[derive(Clone, Debug)]
pub struct Property {
    pub range: Range,
    pub domain: usize,
    pub property: MyTerm,
    pub required: bool,
}

pub struct PropertyV {
    pub range: RangeV,
    pub domain: usize,
    pub property: MyTermV,
    pub required: bool,
}

impl View for Property {
    type V = PropertyV;

    open spec fn view(&self) -> PropertyV {
        PropertyV {
            range: self.range@,
            domain: self.domain,
            property: self.property@,
            required: self.required,
        }
    }
}

pub open spec fn properties_view(v: Seq<Property>) -> Seq<PropertyV> {
    v.map_values(|p: Property| p@)
}

/// Hands out ids for classes and records how they relate. A provider gives
/// each class name one id, which stays the same once given; a name asked
/// for the first time, and every unnamed class, gets an id never given
/// before; and it keeps every subclass pair it was told of.
pub trait ClassProvider {
    /// Whether the provider has given an id to the class named `name`.
    spec fn knows(&self, name: Seq<char>) -> bool;

    /// The id given to the class named `name`.
    spec fn id_of(&self, name: Seq<char>) -> usize;

    /// Whether the provider has given out id `id`.
    spec fn gave(&self, id: usize) -> bool;

    /// Whether class `sub` is recorded as a subclass of class `sup`.
    spec fn has_subclass(&self, sub: usize, sup: usize) -> bool;

    /// The id of the class with IRI `name`.
    fn named(&mut self, name: &str) -> (r: usize)
        ensures
            final(self).knows(name@),
            r == final(self).id_of(name@),
            final(self).gave(r),
            !old(self).knows(name@) ==> !old(self).gave(r),
            forall|n: Seq<char>| #[trigger] final(self).knows(n) ==> old(self).knows(n) || n == name@,
            forall|n: Seq<char>|
                #[trigger] old(self).knows(n) ==> final(self).knows(n) && final(self).id_of(n)
                    == old(self).id_of(n),
            forall|a: usize, b: usize|
                #[trigger] old(self).has_subclass(a, b) ==> final(self).has_subclass(a, b),
            forall|id: usize| #[trigger] old(self).gave(id) ==> final(self).gave(id),
    ;

    /// The id of a fresh class without IRI; `label` names it where known,
    /// `origin` says what asked for it.
    fn unnamed(&mut self, label: Option<&str>, origin: &str) -> (r: usize)
        ensures
            !old(self).gave(r),
            final(self).gave(r),
            forall|n: Seq<char>| #[trigger] old(self).knows(n) ==> old(self).id_of(n) != r,
            forall|n: Seq<char>| #[trigger] final(self).knows(n) ==> old(self).knows(n),
            forall|n: Seq<char>|
                #[trigger] old(self).knows(n) ==> final(self).knows(n) && final(self).id_of(n)
                    == old(self).id_of(n),
            forall|a: usize, b: usize|
                #[trigger] old(self).has_subclass(a, b) ==> final(self).has_subclass(a, b),
            forall|id: usize| #[trigger] old(self).gave(id) ==> final(self).gave(id),
    ;

    /// Records that class `sub` is a subclass of class `sup`.
    fn add_subclass(&mut self, sub: usize, sup: usize)
        ensures
            final(self).has_subclass(sub, sup),
            forall|n: Seq<char>| #[trigger] final(self).knows(n) ==> old(self).knows(n),
            forall|n: Seq<char>|
                #[trigger] old(self).knows(n) ==> final(self).knows(n) && final(self).id_of(n)
                    == old(self).id_of(n),
            forall|a: usize, b: usize|
                #[trigger] old(self).has_subclass(a, b) ==> final(self).has_subclass(a, b),
            forall|id: usize| #[trigger] old(self).gave(id) ==> final(self).gave(id),
    ;
}

/// Provider `b` still gives every id and subclass pair that `a` gave, and
/// the names it learnt since have ids that `a` had not given.
pub open spec fn keeps<P: ClassProvider>(a: P, b: P) -> bool {
    &&& forall|n: Seq<char>| #[trigger]
        a.knows(n) ==> b.knows(n) && b.id_of(n) == a.id_of(n)
    &&& forall|x: usize, y: usize| #[trigger] a.has_subclass(x, y) ==> b.has_subclass(x, y)
    &&& forall|id: usize| #[trigger] a.gave(id) ==> b.gave(id)
    &&& forall|n: Seq<char>| #[trigger] b.knows(n) && !a.knows(n) ==> !a.gave(b.id_of(n))
}

/// A provider keeps what it gives.
pub proof fn lemma_keeps_refl<P: ClassProvider>(a: P)
    ensures
        keeps(a, a),
{
}

/// Keeping is transitive.
pub proof fn lemma_keeps_trans<P: ClassProvider>(a: P, b: P, c: P)
    requires
        keeps(a, b),
        keeps(b, c),
    ensures
        keeps(a, c),
{
    assert forall|n: Seq<char>| #[trigger] c.knows(n) && !a.knows(n) implies !a.gave(c.id_of(n)) by {
        if b.knows(n) {
            assert(c.id_of(n) == b.id_of(n));
        } else {
            assert(!b.gave(c.id_of(n)));
        }
    }
}

/// The position of the first class named `n` from position `i` on.
pub open spec fn first_named(v: Seq<Option<Seq<char>>>, n: Seq<char>, i: int) -> Option<int>
    decreases v.len() - i,
{
    if !(0 <= i < v.len()) {
        None
    } else if v[i] == Some(n) {
        Some(i)
    } else {
        first_named(v, n, i + 1)
    }
}

proof fn lemma_first_named(v: Seq<Option<Seq<char>>>, n: Seq<char>, i: int, x: Option<Seq<char>>)
    requires
        0 <= i,
    ensures
        first_named(v, n, i) matches Some(k) ==> i <= k < v.len() && v[k] == Some(n),
        first_named(v, n, i) is Some ==> first_named(v.push(x), n, i) == first_named(v, n, i),
        first_named(v, n, i) is None ==> first_named(v.push(x), n, i) == if x == Some(n) && i
            <= v.len() {
            Some(v.len() as int)
        } else {
            None::<int>
        },
    decreases v.len() - i,
{
    if i < v.len() {
        lemma_first_named(v, n, i + 1, x);
        assert(v.push(x)[i] == v[i]);
    } else if i == v.len() {
        assert(v.push(x)[i] == x);
        assert(first_named(v.push(x), n, i + 1) is None);
    }
}

/// A class provider that numbers classes in the order they are first asked
/// for: a named class keeps the number it first got, and every fresh class
/// gets a new one.
pub struct ClassIds {
    classes: Vec<Option<String>>,
    subclasses: Vec<(usize, usize)>,
}

pub open spec fn class_names(v: Seq<Option<String>>) -> Seq<Option<Seq<char>>> {
    v.map_values(
        |c: Option<String>|
            match c {
                Some(s) => Some(s@),
                None => None,
            },
    )
}

impl ClassIds {
    /// The classes by id, named or fresh.
    pub closed spec fn names(&self) -> Seq<Option<Seq<char>>> {
        class_names(self.classes@)
    }

    /// The recorded subclass pairs, in order.
    pub closed spec fn pairs(&self) -> Seq<(usize, usize)> {
        self.subclasses@
    }

    /// A provider that has given no ids.
    pub fn new() -> (r: ClassIds)
        ensures
            r.names() == Seq::<Option<Seq<char>>>::empty(),
            r.pairs() == Seq::<(usize, usize)>::empty(),
    {
        let r = ClassIds { classes: Vec::new(), subclasses: Vec::new() };
        assert(r.names() =~= Seq::<Option<Seq<char>>>::empty());
        r
    }

    /// How many classes have an id.
    pub fn len(&self) -> (r: usize)
        ensures
            r == self.names().len(),
    {
        self.classes.len()
    }

    /// The name of class `id`, if it has one.
    pub fn name_of(&self, id: usize) -> (r: Option<&str>)
        ensures
            match r {
                Some(s) => id < self.names().len() && self.names()[id as int] == Some(s@),
                None => id >= self.names().len() || self.names()[id as int] is None,
            },
    {
        if id < self.classes.len() {
            match &self.classes[id] {
                Some(s) => Some(s.as_str()),
                None => None,
            }
        } else {
            None
        }
    }

    /// The recorded subclass pairs, in order.
    pub fn subclass_pairs(&self) -> (r: &Vec<(usize, usize)>)
        ensures
            r@ == self.pairs(),
    {
        &self.subclasses
    }

    fn push_class(&mut self, c: Option<String>) -> (r: usize)
        ensures
            r == old(self).names().len(),
            final(self).names() == old(self).names().push(
                match c {
                    Some(s) => Some(s@),
                    None => None,
                },
            ),
            final(self).pairs() == old(self).pairs(),
    {
        let r = self.classes.len();
        let ghost before = self.classes@;
        self.classes.push(c);
        assert(class_names(self.classes@) =~= class_names(before).push(
            match c {
                Some(s) => Some(s@),
                None => None,
            },
        ));
        r
    }
}

impl ClassProvider for ClassIds {
    closed spec fn knows(&self, name: Seq<char>) -> bool {
        first_named(self.names(), name, 0) is Some
    }

    closed spec fn id_of(&self, name: Seq<char>) -> usize {
        match first_named(self.names(), name, 0) {
            Some(i) => i as usize,
            None => 0,
        }
    }

    closed spec fn gave(&self, id: usize) -> bool {
        id < self.names().len()
    }

    closed spec fn has_subclass(&self, sub: usize, sup: usize) -> bool {
        self.pairs().contains((sub, sup))
    }

    fn named(&mut self, name: &str) -> (r: usize) {
        let ghost v = self.names();
        let mut i: usize = 0;
        while i < self.classes.len()
            invariant
                0 <= i <= self.classes.len(),
                v == self.names(),
                v.len() == self.classes@.len(),
                first_named(v, name@, 0) == first_named(v, name@, i as int),
            decreases self.classes.len() - i,
        {
            assert(v[i as int] == match self.classes@[i as int] {
                Some(s) => Some(s@),
                None => None::<Seq<char>>,
            });
            match &self.classes[i] {
                Some(s) => {
                    if crate::shacl::str_eq(s.as_str(), name) {
                        return i;
                    }
                },
                None => {},
            }
            i = i + 1;
        }
        let ghost x = Some(name@);
        let r = self.push_class(Some(name.to_string()));
        proof {
            lemma_first_named(v, name@, 0, x);
            assert forall|n: Seq<char>| #[trigger] first_named(v, n, 0) is Some implies first_named(
                v.push(x),
                n,
                0,
            ) == first_named(v, n, 0) by {
                lemma_first_named(v, n, 0, x);
            }
            assert forall|n: Seq<char>| #[trigger] first_named(v.push(x), n, 0) is Some implies first_named(
                v,
                n,
                0,
            ) is Some || n == name@ by {
                lemma_first_named(v, n, 0, x);
            }
        }
        r
    }

    fn unnamed(&mut self, label: Option<&str>, origin: &str) -> (r: usize) {
        let ghost v = self.names();
        let r = self.push_class(None);
        proof {
            assert forall|n: Seq<char>| #[trigger] first_named(v, n, 0) is Some implies first_named(
                v.push(None),
                n,
                0,
            ) == first_named(v, n, 0) by {
                lemma_first_named(v, n, 0, None);
            }
            assert forall|n: Seq<char>| #[trigger] first_named(v.push(None), n, 0) is Some implies first_named(
                v,
                n,
                0,
            ) is Some by {
                lemma_first_named(v, n, 0, None);
            }
            assert forall|n: Seq<char>| #[trigger] first_named(v, n, 0) is Some implies (first_named(
                v,
                n,
                0,
            )->0 as usize) != r by {
                lemma_first_named(v, n, 0, None);
            }
        }
        r
    }

    fn add_subclass(&mut self, sub: usize, sup: usize) {
        let ghost before = self.subclasses@;
        self.subclasses.push((sub, sup));
        assert(self.subclasses@[before.len() as int] == (sub, sup));
        assert forall|a: usize, b: usize| #[trigger] before.contains((a, b)) implies self.subclasses@.contains(
            (a, b),
        ) by {
            let k = choose|k: int| 0 <= k < before.len() && before[k] == (a, b);
            assert(self.subclasses@[k] == (a, b));
        }
    }
}

/// Reads the properties that a document declares.
pub trait PropertyProvider {
    fn provide<P: ClassProvider>(&mut self, triples: &Triples, class_provider: &mut P) -> Vec<
        Property,
    >;
}

} // verus!
