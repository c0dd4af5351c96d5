//! Which token positions held subjects, predicates and objects in the
//! previous version of a document, and which positions of the current
//! version correspond to them.
use crate::token::{Spanned, Token, TokenV};
use similar::{capture_diff, Algorithm, DiffOp as S};
use std::collections::{HashMap, HashSet};
use vstd::prelude::*;
use vstd::std_specs::hash::obeys_key_model;
use vstd::string::StringExecFns;

verus! {

broadcast use vstd::std_specs::hash::axiom_usize_obeys_hash_table_key_model;

/// The role a token played in a triple.
#[derive(Clone, Copy, Debug, PartialEq, Eq, Structural)]
pub enum ContextKind {
    Subject,
    Predicate,
    Object,
}

impl ContextKind {
    /// The role as a word.
    pub fn to_string(&self) -> (r: String)
        ensures
            r@ == match *self {
                ContextKind::Subject => "subject"@,
                ContextKind::Predicate => "predicate"@,
                ContextKind::Object => "object"@,
            },
    {
        match self {
            ContextKind::Subject => String::from_str("subject"),
            ContextKind::Predicate => String::from_str("predicate"),
            ContextKind::Object => String::from_str("object"),
        }
    }
}

/// One step of a diff between an old and a new sequence.
#[derive(Clone, Copy, Debug, PartialEq, Eq, Structural)]
pub enum DiffOp {
    Equal { old_index: usize, new_index: usize, len: usize },
    Delete { old_index: usize, old_len: usize, new_index: usize },
    Insert { old_index: usize, new_index: usize, new_len: usize },
    Replace { old_index: usize, old_len: usize, new_index: usize, new_len: usize },
}

/// The diff steps that `similar`'s Myers algorithm gives for two token
/// sequences.
pub uninterp spec fn myers_ops(old: Seq<TokenV>, new: Seq<TokenV>) -> Seq<DiffOp>;

pub open spec fn token_values(v: Seq<Spanned<Token>>) -> Seq<TokenV> {
    v.map_values(|t: Spanned<Token>| t@.0)
}

/// The equal runs of a diff stay within the two sequences.
pub open spec fn ops_in_range(ops: Seq<DiffOp>, old_len: int, new_len: int) -> bool {
    forall|i: int|
        #![trigger ops[i]]
        0 <= i < ops.len() ==> match ops[i] {
            DiffOp::Equal { old_index, new_index, len } => old_index + len <= old_len && new_index
                + len <= new_len,
            _ => true,
        }
}

/// Each equal run of a diff pairs equal elements of the two sequences.
pub open spec fn ops_equal_runs(ops: Seq<DiffOp>, old: Seq<TokenV>, new: Seq<TokenV>) -> bool {
    forall|i: int, k: int|
        #![trigger ops[i], old[k]]
        0 <= i < ops.len() ==> match ops[i] {
            DiffOp::Equal { old_index, new_index, len } => old_index <= k < old_index + len
                ==> old[k] == new[new_index + (k - old_index)],
            _ => true,
        }
}

/// The equal runs of a diff come in order: each ends, in both sequences,
/// before the next begins.
pub open spec fn ops_ordered(ops: Seq<DiffOp>) -> bool {
    forall|i: int, j: int|
        #![trigger ops[i], ops[j]]
        0 <= i < j < ops.len() ==> match (ops[i], ops[j]) {
            (
                DiffOp::Equal { old_index: o1, new_index: n1, len: l1 },
                DiffOp::Equal { old_index: o2, new_index: n2, len: _ },
            ) => o1 + l1 <= o2 && n1 + l1 <= n2,
            _ => true,
        }
}

/// Calls `similar::capture_diff` with the Myers algorithm on the token
/// values of `prev[..prev_len]` and `current[..cur_len]`, and turns each
/// `similar::DiffOp` into the `DiffOp` with the same fields. The contract
/// claims that the steps are the ones named `myers_ops` of the two token
/// sequences; that each equal run lies within the two ranges, as the
/// algorithm only reports positions inside the ranges it is given; that an
/// equal run pairs tokens that compare equal (the algorithm reports a run
/// only where `==` holds, and `Token`'s `==` is equality of views); and that
/// the runs come in order, as the algorithm reports its steps from the start
/// of both sequences to their end.
#[verifier::external_body]
fn capture_token_diff(prev: &[Spanned<Token>], prev_len: usize, current: &[Spanned<Token>], cur_len: usize) -> (r: Vec<DiffOp>)
    requires
        prev_len <= prev@.len(),
        cur_len <= current@.len(),
    ensures
        r@ == myers_ops(token_values(prev@.take(prev_len as int)), token_values(current@.take(cur_len as int))),
        ops_in_range(r@, prev_len as int, cur_len as int),
        ops_equal_runs(r@, token_values(prev@.take(prev_len as int)), token_values(current@.take(cur_len as int))),
        ops_ordered(r@),
{
    let old: Vec<_> = prev.iter().map(|t| &t.0).collect();
    let new: Vec<_> = current.iter().map(|t| &t.0).collect();
    let ops = capture_diff(Algorithm::Myers, &old, 0..prev_len, &new, 0..cur_len);
    ops.into_iter().map(|op| match op {
        S::Equal { old_index, new_index, len } => DiffOp::Equal { old_index, new_index, len },
        S::Delete { old_index, old_len, new_index } => DiffOp::Delete { old_index, old_len, new_index },
        S::Insert { old_index, new_index, new_len } => DiffOp::Insert { old_index, new_index, new_len },
        S::Replace { old_index, old_len, new_index, new_len } => DiffOp::Replace { old_index, old_len, new_index, new_len },
    }).collect()
}

/// `m` with the first `k` positions of an equal run mapped, new to old.
pub open spec fn insert_run(m: Map<usize, usize>, old_index: int, new_index: int, k: int) -> Map<
    usize,
    usize,
>
    decreases k,
{
    if k <= 0 {
        m
    } else {
        insert_run(m, old_index, new_index, k - 1).insert(
            (new_index + k - 1) as usize,
            (old_index + k - 1) as usize,
        )
    }
}

/// `m` with every position of every equal run of `ops` mapped, new to old.
pub open spec fn apply_ops(m: Map<usize, usize>, ops: Seq<DiffOp>) -> Map<usize, usize>
    decreases ops.len(),
{
    if ops.len() == 0 {
        m
    } else {
        let m2 = apply_ops(m, ops.drop_last());
        match ops.last() {
            DiffOp::Equal { old_index, new_index, len } => insert_run(
                m2,
                old_index as int,
                new_index as int,
                len as int,
            ),
            _ => m2,
        }
    }
}

/// Whether position `x` of the new sequence lies in the equal run `op`.
pub open spec fn in_run(op: DiffOp, x: int) -> bool {
    match op {
        DiffOp::Equal { old_index, new_index, len } => new_index <= x < new_index + len,
        _ => false,
    }
}

/// The old position that the equal run `op` pairs with new position `x`.
pub open spec fn run_val(op: DiffOp, x: int) -> int {
    match op {
        DiffOp::Equal { old_index, new_index, len: _ } => old_index + (x - new_index),
        _ => 0,
    }
}

/// The pairs of positions, new to old, that the equal runs of `ops` give.
pub open spec fn diff_pairs(ops: Seq<DiffOp>) -> Map<usize, usize> {
    apply_ops(Map::empty(), ops)
}

proof fn lemma_insert_run_union(m: Map<usize, usize>, o: int, n: int, k: int)
    requires
        0 <= o,
        0 <= n,
        0 <= k,
        o + k <= usize::MAX,
        n + k <= usize::MAX,
    ensures
        insert_run(m, o, n, k) == m.union_prefer_right(insert_run(Map::empty(), o, n, k)),
        forall|x: usize|
            #[trigger] insert_run(Map::empty(), o, n, k).contains_key(x) <==> n <= x < n + k,
        forall|x: usize|
            n <= x < n + k ==> #[trigger] insert_run(Map::empty(), o, n, k)[x] == o + (x - n),
    decreases k,
{
    if k > 0 {
        lemma_insert_run_union(m, o, n, k - 1);
        let r0 = insert_run(Map::<usize, usize>::empty(), o, n, k - 1);
        assert(insert_run(m, o, n, k) =~= m.union_prefer_right(
            insert_run(Map::empty(), o, n, k),
        )) by {
            assert(insert_run(Map::<usize, usize>::empty(), o, n, k) == r0.insert(
                (n + k - 1) as usize,
                (o + k - 1) as usize,
            ));
        }
    } else {
        assert(insert_run(m, o, n, k) =~= m.union_prefer_right(
            insert_run(Map::empty(), o, n, k),
        ));
    }
}

/// Applying a diff to a map overwrites it with the diff's pairs, each of
/// which comes from one of its equal runs.
proof fn lemma_apply_ops_pairs(m: Map<usize, usize>, ops: Seq<DiffOp>)
    requires
        ops_in_range(ops, usize::MAX as int, usize::MAX as int),
    ensures
        apply_ops(m, ops) == m.union_prefer_right(diff_pairs(ops)),
        forall|x: usize|
            #[trigger] diff_pairs(ops).contains_key(x) ==> exists|i: int|
                0 <= i < ops.len() && in_run(#[trigger] ops[i], x as int) && diff_pairs(ops)[x]
                    == run_val(ops[i], x as int),
    decreases ops.len(),
{
    if ops.len() > 0 {
        let init = ops.drop_last();
        assert forall|i: int| 0 <= i < init.len() implies match #[trigger] init[i] {
            DiffOp::Equal { old_index, new_index, len } => old_index + len <= usize::MAX
                && new_index + len <= usize::MAX,
            _ => true,
        } by {
            assert(init[i] == ops[i]);
        }
        lemma_apply_ops_pairs(m, init);
        lemma_apply_ops_pairs(Map::empty(), init);
        let d0 = diff_pairs(init);
        assert(Map::<usize, usize>::empty().union_prefer_right(d0) =~= d0);
        let last = ops.last();
        assert(last == ops[ops.len() - 1]);
        match last {
            DiffOp::Equal { old_index, new_index, len } => {
                let (o, n, k) = (old_index as int, new_index as int, len as int);
                lemma_insert_run_union(m.union_prefer_right(d0), o, n, k);
                lemma_insert_run_union(d0, o, n, k);
                let run = insert_run(Map::<usize, usize>::empty(), o, n, k);
                assert(apply_ops(m, ops) == insert_run(apply_ops(m, init), o, n, k));
                assert(diff_pairs(ops) == insert_run(d0, o, n, k));
                assert(m.union_prefer_right(d0).union_prefer_right(run) =~= m.union_prefer_right(
                    d0.union_prefer_right(run),
                ));
                assert forall|x: usize| #[trigger] diff_pairs(ops).contains_key(x) implies exists|
                    i: int,
                |
                    0 <= i < ops.len() && in_run(#[trigger] ops[i], x as int) && diff_pairs(ops)[x]
                        == run_val(ops[i], x as int) by {
                    if run.contains_key(x) {
                        assert(in_run(ops[ops.len() - 1], x as int));
                    } else {
                        let i = choose|i: int|
                            0 <= i < init.len() && in_run(#[trigger] init[i], x as int) && d0[x]
                                == run_val(init[i], x as int);
                        assert(ops[i] == init[i]);
                    }
                }
            },
            _ => {
                assert(apply_ops(m, ops) == apply_ops(m, init));
                assert(diff_pairs(ops) == d0);
                assert forall|x: usize| #[trigger] diff_pairs(ops).contains_key(x) implies exists|
                    i: int,
                |
                    0 <= i < ops.len() && in_run(#[trigger] ops[i], x as int) && diff_pairs(ops)[x]
                        == run_val(ops[i], x as int) by {
                    let i = choose|i: int|
                        0 <= i < init.len() && in_run(#[trigger] init[i], x as int) && d0[x]
                            == run_val(init[i], x as int);
                    assert(ops[i] == init[i]);
                }
            },
        }
    } else {
        assert(m.union_prefer_right(diff_pairs(ops)) =~= m);
    }
}

/// The pairs that an ordered diff of equal runs gives lie within both
/// sequences, pair equal elements, and increase in both positions.
pub proof fn lemma_diff_pairs(ops: Seq<DiffOp>, old: Seq<TokenV>, new: Seq<TokenV>)
    requires
        old.len() <= usize::MAX,
        new.len() <= usize::MAX,
        ops_in_range(ops, old.len() as int, new.len() as int),
        ops_equal_runs(ops, old, new),
        ops_ordered(ops),
    ensures
        forall|x: usize|
            #[trigger] diff_pairs(ops).contains_key(x) ==> x < new.len() && diff_pairs(ops)[x]
                < old.len() && new[x as int] == old[diff_pairs(ops)[x] as int],
        forall|x1: usize, x2: usize|
            #![trigger diff_pairs(ops)[x1], diff_pairs(ops)[x2]]
            diff_pairs(ops).contains_key(x1) && diff_pairs(ops).contains_key(x2) && x1 < x2
                ==> diff_pairs(ops)[x1] < diff_pairs(ops)[x2],
{
    let d = diff_pairs(ops);
    assert forall|i: int| 0 <= i < ops.len() implies match #[trigger] ops[i] {
        DiffOp::Equal { old_index, new_index, len } => old_index + len <= usize::MAX && new_index
            + len <= usize::MAX,
        _ => true,
    } by {}
    lemma_apply_ops_pairs(Map::empty(), ops);
    assert forall|x: usize| #[trigger] d.contains_key(x) implies x < new.len() && d[x] < old.len()
        && new[x as int] == old[d[x] as int] by {
        let i = choose|i: int|
            0 <= i < ops.len() && in_run(#[trigger] ops[i], x as int) && d[x] == run_val(
                ops[i],
                x as int,
            );
        match ops[i] {
            DiffOp::Equal { old_index, new_index, len } => {
                let k = x - new_index;
                assert(old[old_index + k] == new[new_index + k]);
            },
            _ => {},
        }
    }
    assert forall|x1: usize, x2: usize|
        d.contains_key(x1) && d.contains_key(x2) && x1 < x2 implies #[trigger] d[x1]
        < #[trigger] d[x2] by {
        let i1 = choose|i: int|
            0 <= i < ops.len() && in_run(#[trigger] ops[i], x1 as int) && d[x1] == run_val(
                ops[i],
                x1 as int,
            );
        let i2 = choose|i: int|
            0 <= i < ops.len() && in_run(#[trigger] ops[i], x2 as int) && d[x2] == run_val(
                ops[i],
                x2 as int,
            );
        if i1 < i2 {
            assert(ops_ordered(ops));
            let _ = (ops[i1], ops[i2]);
        } else if i2 < i1 {
            let _ = (ops[i2], ops[i1]);
        }
    }
}

pub struct ContextV {
    pub subjects: Set<usize>,
    pub predicates: Set<usize>,
    pub objects: Set<usize>,
    pub current_to_prev: Map<usize, usize>,
}

/// The roles of token positions in the previous version of a document, and
/// the map from current positions to previous ones.
#[derive(Debug)]
pub struct Context {
    subjects: HashSet<usize>,
    predicates: HashSet<usize>,
    objects: HashSet<usize>,
    current_to_prev: HashMap<usize, usize>,
}

impl View for Context {
    type V = ContextV;

    closed spec fn view(&self) -> ContextV {
        ContextV {
            subjects: self.subjects@,
            predicates: self.predicates@,
            objects: self.objects@,
            current_to_prev: self.current_to_prev@,
        }
    }
}

/// A token index into a token list.
pub struct TokenIdx<'a> {
    pub tokens: &'a Vec<Spanned<Token>>,
}

impl<'a> TokenIdx<'a> {
    /// The token at position `index`.
    pub fn index(&self, index: usize) -> (r: &Token)
        requires
            index < self.tokens@.len(),
        ensures
            *r == self.tokens@[index as int].0,
    {
        &self.tokens[index].0
    }
}

impl Context {
    /// An empty context.
    pub fn new() -> (r: Context)
        ensures
            r@ == (ContextV {
                subjects: Set::empty(),
                predicates: Set::empty(),
                objects: Set::empty(),
                current_to_prev: Map::empty(),
            }),
    {
        Context {
            subjects: HashSet::new(),
            predicates: HashSet::new(),
            objects: HashSet::new(),
            current_to_prev: HashMap::new(),
        }
    }

    /// Records position `idx` as a subject.
    pub fn add_subject(&mut self, idx: usize)
        ensures
            final(self)@ == (ContextV { subjects: old(self)@.subjects.insert(idx), ..old(self)@ }),
    {
        self.subjects.insert(idx);
    }

    /// Records position `idx` as a predicate.
    pub fn add_predicate(&mut self, idx: usize)
        ensures
            final(self)@ == (ContextV {
                predicates: old(self)@.predicates.insert(idx),
                ..old(self)@
            }),
    {
        self.predicates.insert(idx);
    }

    /// Records position `idx` as an object.
    pub fn add_object(&mut self, idx: usize)
        ensures
            final(self)@ == (ContextV { objects: old(self)@.objects.insert(idx), ..old(self)@ }),
    {
        self.objects.insert(idx);
    }

    /// Records position `idx` in the role `kind`.
    pub fn add(&mut self, idx: usize, kind: ContextKind)
        ensures
            final(self)@ == match kind {
                ContextKind::Subject => ContextV {
                    subjects: old(self)@.subjects.insert(idx),
                    ..old(self)@
                },
                ContextKind::Predicate => ContextV {
                    predicates: old(self)@.predicates.insert(idx),
                    ..old(self)@
                },
                ContextKind::Object => ContextV { objects: old(self)@.objects.insert(idx), ..old(self)@ },
            },
    {
        match kind {
            ContextKind::Subject => self.add_subject(idx),
            ContextKind::Predicate => self.add_predicate(idx),
            ContextKind::Object => self.add_object(idx),
        }
    }

    /// Forgets all roles and the position map.
    pub fn clear(&mut self)
        ensures
            final(self)@ == (ContextV {
                subjects: Set::empty(),
                predicates: Set::empty(),
                objects: Set::empty(),
                current_to_prev: Map::empty(),
            }),
    {
        self.subjects.clear();
        self.predicates.clear();
        self.objects.clear();
        self.current_to_prev.clear();
    }

    /// Maps each position of each equal run of `ops`, new to old.
    pub fn apply_diff(&mut self, ops: &Vec<DiffOp>)
        requires
            ops_in_range(ops@, usize::MAX as int, usize::MAX as int),
        ensures
            final(self)@ == (ContextV {
                current_to_prev: apply_ops(old(self)@.current_to_prev, ops@),
                ..old(self)@
            }),
    {
        let mut i: usize = 0;
        while i < ops.len()
            invariant
                0 <= i <= ops.len(),
                obeys_key_model::<usize>(),
                ops_in_range(ops@, usize::MAX as int, usize::MAX as int),
                self@ == (ContextV {
                    current_to_prev: apply_ops(old(self)@.current_to_prev, ops@.take(i as int)),
                    ..old(self)@
                }),
            decreases ops.len() - i,
        {
            proof {
                assert(ops@.take(i + 1).drop_last() =~= ops@.take(i as int));
                assert(ops@.take(i + 1).last() == ops@[i as int]);
            }
            match ops[i] {
                DiffOp::Equal { old_index, new_index, len } => {
                    let ghost m0 = self.current_to_prev@;
                    let mut k: usize = 0;
                    while k < len
                        invariant
                            0 <= k <= len,
                            old_index + len <= usize::MAX,
                            new_index + len <= usize::MAX,
                            obeys_key_model::<usize>(),
                            self.current_to_prev@ == insert_run(
                                m0,
                                old_index as int,
                                new_index as int,
                                k as int,
                            ),
                            self.subjects@ == old(self)@.subjects,
                            self.predicates@ == old(self)@.predicates,
                            self.objects@ == old(self)@.objects,
                        decreases len - k,
                    {
                        self.current_to_prev.insert(new_index + k, old_index + k);
                        k = k + 1;
                    }
                },
                _ => {},
            }
            i = i + 1;
        }
        proof {
            assert(ops@.take(ops@.len() as int) =~= ops@);
        }
    }

    /// Maps the positions of `current` to those of `prev` that a diff of the
    /// two token sequences finds equal.
    pub fn setup_current_to_prev(
        &mut self,
        current: TokenIdx,
        current_length: usize,
        prev: TokenIdx,
        prev_length: usize,
    )
        requires
            current_length <= current.tokens@.len(),
            prev_length <= prev.tokens@.len(),
        ensures
            final(self)@ == (ContextV {
                current_to_prev: apply_ops(
                    old(self)@.current_to_prev,
                    myers_ops(
                        token_values(prev.tokens@.take(prev_length as int)),
                        token_values(current.tokens@.take(current_length as int)),
                    ),
                ),
                ..old(self)@
            }),
            ({
                let d = diff_pairs(
                    myers_ops(
                        token_values(prev.tokens@.take(prev_length as int)),
                        token_values(current.tokens@.take(current_length as int)),
                    ),
                );
                &&& final(self)@.current_to_prev == old(self)@.current_to_prev.union_prefer_right(d)
                &&& forall|n: usize|
                    #[trigger] d.contains_key(n) ==> n < current_length && d[n] < prev_length
                        && current.tokens@[n as int]@.0 == prev.tokens@[d[n] as int]@.0
                &&& forall|n1: usize, n2: usize|
                    #![trigger d[n1], d[n2]]
                    d.contains_key(n1) && d.contains_key(n2) && n1 < n2 ==> d[n1] < d[n2]
            }),
    {
        let ops = capture_token_diff(
            prev.tokens.as_slice(),
            prev_length,
            current.tokens.as_slice(),
            current_length,
        );
        proof {
            let pv = token_values(prev.tokens@.take(prev_length as int));
            let cv = token_values(current.tokens@.take(current_length as int));
            lemma_apply_ops_pairs(old(self)@.current_to_prev, ops@);
            lemma_diff_pairs(ops@, pv, cv);
            let d = diff_pairs(ops@);
            assert forall|n: usize| #[trigger] d.contains_key(n) implies current.tokens@[n as int]@.0
                == prev.tokens@[d[n] as int]@.0 by {
                assert(cv[n as int] == current.tokens@[n as int]@.0);
                assert(pv[d[n] as int] == prev.tokens@[d[n] as int]@.0);
            }
        }
        self.apply_diff(&ops);
    }

    /// The previous position that current position `idx` corresponds to.
    pub fn prev_position(&self, idx: usize) -> (r: Option<usize>)
        ensures
            r == (if self@.current_to_prev.contains_key(idx) {
                Some(self@.current_to_prev[idx])
            } else {
                None
            }),
    {
        match self.current_to_prev.get(&idx) {
            Some(o) => Some(*o),
            None => None,
        }
    }

    /// A read-only handle on the context.
    pub fn ctx(&self) -> (r: Ctx)
        ensures
            r.context == self,
    {
        Ctx { context: self }
    }
}

impl Default for Context {
    fn default() -> (r: Context)
        ensures
            r@ == (ContextV {
                subjects: Set::empty(),
                predicates: Set::empty(),
                objects: Set::empty(),
                current_to_prev: Map::empty(),
            }),
    {
        Context::new()
    }
}

/// Whether position `idx` of the current version was, in the previous
/// version, at a position held by `roles`.
pub open spec fn was_in(c: ContextV, roles: Set<usize>, idx: usize) -> bool {
    c.current_to_prev.contains_key(idx) && roles.contains(c.current_to_prev[idx])
}

/// The role that position `idx` of the current version had before: subject
/// first, then predicate, then object.
pub open spec fn find_was_spec(c: ContextV, idx: usize) -> Option<ContextKind> {
    if was_in(c, c.subjects, idx) {
        Some(ContextKind::Subject)
    } else if was_in(c, c.predicates, idx) {
        Some(ContextKind::Predicate)
    } else if was_in(c, c.objects, idx) {
        Some(ContextKind::Object)
    } else {
        None
    }
}

/// A read-only handle on a context.
#[derive(Clone, Copy)]
pub struct Ctx<'a> {
    pub context: &'a Context,
}

impl<'a> Ctx<'a> {
    /// The role that position `idx` had in the previous version, if any.
    pub fn find_was(&self, idx: usize) -> (r: Option<ContextKind>)
        ensures
            r == find_was_spec(self.context@, idx),
    {
        match self.context.current_to_prev.get(&idx) {
            Some(old) => {
                if self.context.subjects.contains(old) {
                    return Some(ContextKind::Subject);
                }
                if self.context.predicates.contains(old) {
                    return Some(ContextKind::Predicate);
                }
                if self.context.objects.contains(old) {
                    return Some(ContextKind::Object);
                }
                None
            },
            None => None,
        }
    }

    /// Whether position `idx` had the role `kind` in the previous version.
    pub fn was(&self, idx: usize, kind: ContextKind) -> (r: bool)
        ensures
            r == match kind {
                ContextKind::Subject => was_in(self.context@, self.context@.subjects, idx),
                ContextKind::Predicate => was_in(self.context@, self.context@.predicates, idx),
                ContextKind::Object => was_in(self.context@, self.context@.objects, idx),
            },
    {
        match kind {
            ContextKind::Subject => self.was_subject(idx),
            ContextKind::Predicate => self.was_predicate(idx),
            ContextKind::Object => self.was_object(idx),
        }
    }

    /// Whether position `idx` was a subject in the previous version.
    pub fn was_subject(&self, idx: usize) -> (r: bool)
        ensures
            r == was_in(self.context@, self.context@.subjects, idx),
    {
        match self.context.current_to_prev.get(&idx) {
            Some(old) => self.context.subjects.contains(old),
            None => false,
        }
    }

    /// Whether position `idx` was an object in the previous version.
    pub fn was_object(&self, idx: usize) -> (r: bool)
        ensures
            r == was_in(self.context@, self.context@.objects, idx),
    {
        match self.context.current_to_prev.get(&idx) {
            Some(old) => self.context.objects.contains(old),
            None => false,
        }
    }

    /// Whether position `idx` was a predicate in the previous version.
    pub fn was_predicate(&self, idx: usize) -> (r: bool)
        ensures
            r == was_in(self.context@, self.context@.predicates, idx),
    {
        match self.context.current_to_prev.get(&idx) {
            Some(old) => self.context.predicates.contains(old),
            None => false,
        }
    }
}

} // verus!

verus! {

/// The new positions of two distinct equal runs of `ops` do not overlap.
pub open spec fn runs_apart(ops: Seq<DiffOp>) -> bool {
    forall|a: int, b: int|
        #![trigger ops[a], ops[b]]
        0 <= a < ops.len() && 0 <= b < ops.len() && a != b ==> match (ops[a], ops[b]) {
            (
                DiffOp::Equal { new_index: na, len: la, .. },
                DiffOp::Equal { new_index: nb, len: lb, .. },
            ) => na + la <= nb || nb + lb <= na,
            _ => true,
        }
}

proof fn lemma_insert_run(m: Map<usize, usize>, o: int, n: int, k: int)
    requires
        0 <= k,
        o + k <= usize::MAX,
        n + k <= usize::MAX,
        0 <= o,
        0 <= n,
    ensures
        forall|x: usize|
            #![trigger insert_run(m, o, n, k).contains_key(x)]
            #![trigger insert_run(m, o, n, k)[x]]
            n <= x < n + k ==> insert_run(m, o, n, k).contains_key(x) && insert_run(m, o, n, k)[x]
                == (o + (x - n)) as usize,
        forall|x: usize|
            #![trigger insert_run(m, o, n, k).contains_key(x)]
            #![trigger insert_run(m, o, n, k)[x]]
            !(n <= x < n + k) ==> (insert_run(m, o, n, k).contains_key(x) == m.contains_key(x)) && (
            m.contains_key(x) ==> insert_run(m, o, n, k)[x] == m[x]),
    decreases k,
{
    if k > 0 {
        lemma_insert_run(m, o, n, k - 1);
        assert(insert_run(m, o, n, k) == insert_run(m, o, n, k - 1).insert(
            (n + k - 1) as usize,
            (o + k - 1) as usize,
        ));
        assert forall|x: usize|
            #![trigger insert_run(m, o, n, k).contains_key(x)]
            #![trigger insert_run(m, o, n, k)[x]]
            n <= x < n + k implies insert_run(m, o, n, k).contains_key(x) && insert_run(m, o, n, k)[x]
                == (o + (x - n)) as usize by {
            if x < n + k - 1 {
                assert(insert_run(m, o, n, k - 1).contains_key(x));
            }
        }
        assert forall|x: usize|
            #![trigger insert_run(m, o, n, k).contains_key(x)]
            #![trigger insert_run(m, o, n, k)[x]]
            !(n <= x < n + k) implies (insert_run(m, o, n, k).contains_key(x) == m.contains_key(x))
                && (m.contains_key(x) ==> insert_run(m, o, n, k)[x] == m[x]) by {
            assert(insert_run(m, o, n, k - 1).contains_key(x) == m.contains_key(x));
        }
    } else {
        assert(insert_run(m, o, n, k) == m);
    }
}

/// Mapping the equal runs of a diff maps every position of each run to the
/// position it came from, where the runs do not overlap.
pub proof fn lemma_apply_ops(m: Map<usize, usize>, ops: Seq<DiffOp>)
    requires
        ops_in_range(ops, usize::MAX as int, usize::MAX as int),
        runs_apart(ops),
    ensures
        forall|i: int, x: usize|
            #![trigger ops[i], apply_ops(m, ops).contains_key(x)]
            #![trigger ops[i], apply_ops(m, ops)[x]]
            0 <= i < ops.len() && (ops[i] matches DiffOp::Equal { old_index, new_index, len }
                && new_index <= x < new_index + len) ==> apply_ops(m, ops).contains_key(x)
                && apply_ops(m, ops)[x] == (ops[i]->Equal_old_index + (x - ops[i]->Equal_new_index)) as usize,
    decreases ops.len(),
{
    if ops.len() > 0 {
        let rest = ops.drop_last();
        assert forall|k: int| 0 <= k < rest.len() implies #[trigger] rest[k] == ops[k] by {}
        assert(ops_in_range(rest, usize::MAX as int, usize::MAX as int)) by {
            assert forall|k: int| 0 <= k < rest.len() implies match #[trigger] rest[k] {
                DiffOp::Equal { old_index, new_index, len } => old_index + len <= usize::MAX
                    && new_index + len <= usize::MAX,
                _ => true,
            } by {
                assert(rest[k] == ops[k]);
            }
        }
        assert(runs_apart(rest)) by {
            assert forall|a: int, b: int|
                0 <= a < rest.len() && 0 <= b < rest.len() && a != b implies match (
                    #[trigger] rest[a],
                    #[trigger] rest[b],
                ) {
                    (
                        DiffOp::Equal { new_index: na, len: la, .. },
                        DiffOp::Equal { new_index: nb, len: lb, .. },
                    ) => na + la <= nb || nb + lb <= na,
                    _ => true,
                } by {
                assert(rest[a] == ops[a]);
                assert(rest[b] == ops[b]);
            }
        }
        lemma_apply_ops(m, rest);
        let last = ops.len() - 1;
        assert(ops.last() == ops[last]);
        assert(ops_in_range(ops, usize::MAX as int, usize::MAX as int));
        match ops[last] {
            DiffOp::Equal { old_index, new_index, len } => {
                lemma_insert_run(apply_ops(m, rest), old_index as int, new_index as int, len as int);
                assert(apply_ops(m, ops) == insert_run(
                    apply_ops(m, rest),
                    old_index as int,
                    new_index as int,
                    len as int,
                ));
                assert forall|i: int, x: usize|
                    #![trigger ops[i], apply_ops(m, ops).contains_key(x)]
                    #![trigger ops[i], apply_ops(m, ops)[x]]
                    0 <= i < ops.len() && (ops[i] matches DiffOp::Equal { old_index, new_index, len }
                        && new_index <= x < new_index + len) implies apply_ops(m, ops).contains_key(x)
                        && apply_ops(m, ops)[x] == (ops[i]->Equal_old_index + (x
                        - ops[i]->Equal_new_index)) as usize by {
                    if i < last {
                        assert(rest[i] == ops[i]);
                        assert(apply_ops(m, rest).contains_key(x));
                        assert(insert_run(
                            apply_ops(m, rest),
                            old_index as int,
                            new_index as int,
                            len as int,
                        ).contains_key(x));
                    } else {
                        assert(insert_run(
                            apply_ops(m, rest),
                            old_index as int,
                            new_index as int,
                            len as int,
                        ).contains_key(x));
                    }
                }
            },
            _ => {
                assert(apply_ops(m, ops) == apply_ops(m, rest));
                assert forall|i: int, x: usize|
                    #![trigger ops[i], apply_ops(m, ops).contains_key(x)]
                    #![trigger ops[i], apply_ops(m, ops)[x]]
                    0 <= i < ops.len() && (ops[i] matches DiffOp::Equal { old_index, new_index, len }
                        && new_index <= x < new_index + len) implies apply_ops(m, ops).contains_key(x)
                        && apply_ops(m, ops)[x] == (ops[i]->Equal_old_index + (x
                        - ops[i]->Equal_new_index)) as usize by {
                    assert(rest[i] == ops[i]);
                    assert(apply_ops(m, rest).contains_key(x));
                }
            },
        }
    }
}

/// Once cleared, a context knows no role for any position.
pub proof fn lemma_cleared_context(c: ContextV, idx: usize)
    requires
        c.subjects == Set::<usize>::empty(),
        c.predicates == Set::<usize>::empty(),
        c.objects == Set::<usize>::empty(),
        c.current_to_prev == Map::<usize, usize>::empty(),
    ensures
        find_was_spec(c, idx) is None,
        !was_in(c, c.subjects, idx),
        !was_in(c, c.predicates, idx),
        !was_in(c, c.objects, idx),
{
}

} // verus!
