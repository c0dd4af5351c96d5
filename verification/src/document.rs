//! One step of keeping a document parsed as its text changes: the state
//! kept between versions, and what a new version of the tokens does to it.
use crate::context::{diff_pairs, myers_ops, token_values, Context, ContextV, TokenIdx};
use crate::model::{Turtle, TurtleV};
use crate::parser::spec::{empty_doc, p_recover};
use crate::parser::{ranges_view, toks, Ctx};
use crate::token::{Spanned, Token, TokenV};
use vstd::prelude::*;

verus! {

/// What is kept of a document between two versions: the previous tokens
/// and the roles of their positions.
pub struct DocState {
    pub tokens: Vec<Spanned<Token>>,
    pub context: Context,
}

/// The result of one step: the document read from the new tokens, its
/// errors as token ranges (an unreadable token, an empty range where
/// something is missing, or a skipped statement), whether there were any,
/// and for each new token the position of the previous token it
/// corresponds to, if any.
pub struct Parsed {
    pub turtle: Turtle,
    pub failed: Vec<std::ops::Range<usize>>,
    pub dirty: bool,
    pub previous: Vec<Option<usize>>,
}

/// The value `m` gives `k`, if any.
pub open spec fn map_get(m: Map<usize, usize>, k: usize) -> Option<usize> {
    if m.contains_key(k) {
        Some(m[k])
    } else {
        None
    }
}

/// A copy of a token list.
pub fn copy_tokens(tokens: &Vec<Spanned<Token>>) -> (r: Vec<Spanned<Token>>)
    ensures
        toks(r@) == toks(tokens@),
{
    let mut r: Vec<Spanned<Token>> = Vec::new();
    let mut i: usize = 0;
    while i < tokens.len()
        invariant
            0 <= i <= tokens.len(),
            toks(r@) == toks(tokens@.take(i as int)),
        decreases tokens.len() - i,
    {
        let t = Spanned(tokens[i].0.duplicate(), tokens[i].1);
        let ghost before = r@;
        r.push(t);
        proof {
            assert(t@ == tokens@[i as int]@);
            assert(tokens@.take(i + 1) =~= tokens@.take(i as int).push(tokens@[i as int]));
            assert(toks(r@) =~= toks(before).push(t@));
            assert(toks(tokens@.take(i + 1)) =~= toks(tokens@.take(i as int)).push(
                tokens@[i as int]@,
            ));
        }
        i = i + 1;
    }
    proof {
        assert(tokens@.take(tokens.len() as int) =~= tokens@);
    }
    r
}

impl DocState {
    /// The state of a document not seen before.
    pub fn new() -> (r: DocState)
        ensures
            r.tokens@.len() == 0,
            r.context@ == (ContextV {
                subjects: Set::empty(),
                predicates: Set::empty(),
                objects: Set::empty(),
                current_to_prev: Map::empty(),
            }),
    {
        DocState { tokens: Vec::new(), context: Context::new() }
    }

    /// Takes in a new version of the tokens of the document read from
    /// `location`: maps the new positions to the previous ones, reads the
    /// statements with recovery (unreadable or missing terms become invalid
    /// ones, a missing `.` is an error, the statement being kept; where none
    /// reads, it is skipped up to its `.`), and keeps the new tokens with a
    /// cleared context for the next version.
    pub fn parse_turtle_step(&mut self, tokens: &Vec<Spanned<Token>>, location: &str) -> (r: Parsed)
        requires
            tokens@.len() + 1 <= usize::MAX,
        ensures
            toks(final(self).tokens@) == toks(tokens@),
            final(self).context@ == (ContextV {
                subjects: Set::empty(),
                predicates: Set::empty(),
                objects: Set::empty(),
                current_to_prev: Map::empty(),
            }),
            (r.turtle@, ranges_view(r.failed@)) == ({
                let (d, f, _) = p_recover(toks(tokens@), 0, empty_doc(location@));
                (d, f)
            }),
            r.dirty == (r.failed@.len() > 0),
            ({
                let d = diff_pairs(
                    myers_ops(
                        token_values(old(self).tokens@.take(old(self).tokens@.len() as int)),
                        token_values(tokens@.take(tokens@.len() as int)),
                    ),
                );
                let m = old(self).context@.current_to_prev.union_prefer_right(d);
                &&& r.previous@.len() == tokens@.len()
                &&& forall|n: int|
                    0 <= n < tokens@.len() ==> #[trigger] r.previous@[n] == map_get(m, n as usize)
                &&& forall|n: usize|
                    #[trigger] d.contains_key(n) ==> n < tokens@.len() && d[n] < old(
                        self,
                    ).tokens@.len() && tokens@[n as int]@.0 == old(self).tokens@[d[n] as int]@.0
                &&& forall|n1: usize, n2: usize|
                    #![trigger d[n1], d[n2]]
                    d.contains_key(n1) && d.contains_key(n2) && n1 < n2 ==> d[n1] < d[n2]
            }),
    {
        self.context.setup_current_to_prev(
            TokenIdx { tokens },
            tokens.len(),
            TokenIdx { tokens: &self.tokens },
            self.tokens.len(),
        );
        let mut previous: Vec<Option<usize>> = Vec::new();
        let mut n: usize = 0;
        while n < tokens.len()
            invariant
                0 <= n <= tokens.len(),
                previous@.len() == n,
                forall|k: int|
                    0 <= k < n ==> #[trigger] previous@[k] == map_get(
                        self.context@.current_to_prev,
                        k as usize,
                    ),
            decreases tokens.len() - n,
        {
            previous.push(self.context.prev_position(n));
            n = n + 1;
        }
        let mut turtle = Turtle::empty(location);
        let mut ctx = Ctx::new(tokens.as_slice());
        let failed = ctx.parse_turtle_recover(&mut turtle);
        self.tokens = copy_tokens(tokens);
        self.context.clear();
        let dirty = failed.len() > 0;
        Parsed { turtle, failed, dirty, previous }
    }
}

} // verus!
