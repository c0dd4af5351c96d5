//! Longest-match scanning with the terminal automata.
use super::dfa::{accepting, accepting_exec, step, step_exec, Kind, DEAD, START};
use vstd::prelude::*;

verus! {

/// The state the automaton of `k` is in after reading `t`.
pub open spec fn run(k: Kind, t: Seq<char>) -> u8
    decreases t.len(),
{
    if t.len() == 0 {
        START
    } else {
        step(k, run(k, t.drop_last()), t.last())
    }
}

/// The text `t` is a lexeme of terminal `k`.
pub open spec fn matches(k: Kind, t: Seq<char>) -> bool {
    accepting(k, run(k, t))
}

/// The largest `e` with `j < e <= hi` such that `s[j..e]` is a lexeme of `k`.
pub open spec fn longest_upto(s: Seq<char>, j: int, k: Kind, hi: int) -> Option<int>
    decreases hi - j,
{
    if hi <= j {
        None
    } else if matches(k, s.subrange(j, hi)) {
        Some(hi)
    } else {
        longest_upto(s, j, k, hi - 1)
    }
}

/// The end of the longest lexeme of `k` that starts at `j` in `s`.
pub open spec fn longest(s: Seq<char>, j: int, k: Kind) -> Option<int> {
    longest_upto(s, j, k, s.len() as int)
}

pub proof fn lemma_run_step(k: Kind, s: Seq<char>, j: int, p: int)
    requires
        0 <= j <= p < s.len(),
    ensures
        run(k, s.subrange(j, p + 1)) == step(k, run(k, s.subrange(j, p)), s[p]),
{
    assert(s.subrange(j, p + 1).drop_last() =~= s.subrange(j, p));
}

/// Once the automaton is dead it stays dead.
pub proof fn lemma_dead_stays(k: Kind, s: Seq<char>, j: int, p: int, e: int)
    requires
        0 <= j <= p <= e <= s.len(),
        run(k, s.subrange(j, p)) == DEAD,
    ensures
        run(k, s.subrange(j, e)) == DEAD,
    decreases e - p,
{
    if e > p {
        lemma_dead_stays(k, s, j, p, e - 1);
        lemma_run_step(k, s, j, e - 1);
    }
}

pub proof fn lemma_longest_dead(k: Kind, s: Seq<char>, j: int, p: int, e: int)
    requires
        0 <= j <= p <= e <= s.len(),
        run(k, s.subrange(j, p)) == DEAD,
    ensures
        longest_upto(s, j, k, e) == longest_upto(s, j, k, p),
    decreases e - p,
{
    if e > p {
        lemma_dead_stays(k, s, j, p, e);
        lemma_longest_dead(k, s, j, p, e - 1);
    }
}

/// The end of the longest lexeme of `k` starting at `j`.
pub fn longest_exec(s: &Vec<char>, j: usize, k: Kind) -> (r: Option<usize>)
    requires
        j <= s.len(),
    ensures
        match r {
            Some(e) => longest(s@, j as int, k) == Some(e as int),
            None => longest(s@, j as int, k) is None,
        },
{
    let mut st = START;
    let mut p = j;
    let mut last: Option<usize> = None;
    assert(s@.subrange(j as int, j as int).len() == 0);
    while p < s.len() && st != DEAD
        invariant
            j <= p <= s.len(),
            st == run(k, s@.subrange(j as int, p as int)),
            match last {
                Some(e) => longest_upto(s@, j as int, k, p as int) == Some(e as int),
                None => longest_upto(s@, j as int, k, p as int) is None,
            },
        decreases s.len() - p,
    {
        proof {
            lemma_run_step(k, s@, j as int, p as int);
        }
        st = step_exec(k, st, s[p]);
        p = p + 1;
        if accepting_exec(k, st) {
            last = Some(p);
        }
    }
    proof {
        if p < s.len() {
            lemma_longest_dead(k, s@, j as int, p as int, s.len() as int);
        }
    }
    last
}

} // verus!
