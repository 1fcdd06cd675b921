//! Why the walk ends: every path within a budget has a rank, each attempt
//! leaves the session on a path of higher rank, and the ranks are bounded.

use crate::path::{successor, valid, Run, Session, Slot};
use vstd::prelude::*;

verus! {

/// A number above one plus every value that a position can hold.
pub open spec fn radix() -> int {
    usize::MAX + 2
}

/// `radix()` to the power of `depth`.
pub open spec fn span(depth: nat) -> int
    decreases depth,
{
    if depth == 0 {
        1
    } else {
        radix() * span((depth - 1) as nat)
    }
}

/// The rank of `path` among the paths of at most `depth` positions: the
/// paths ordered by their values from the first position on, a path before
/// each of its extensions.
pub open spec fn rank(path: Seq<Slot>, depth: nat) -> int
    decreases depth,
{
    if depth == 0 || path.len() == 0 {
        0
    } else {
        (path[0].value + 1) * span((depth - 1) as nat) + rank(path.skip(1), (depth - 1) as nat)
    }
}

impl Session {
    /// How far the walk is from its end at most. It falls with every attempt.
    pub open spec fn measure(self) -> nat {
        if self.first_run {
            (span(self.budget as nat) + 1) as nat
        } else {
            (span(self.budget as nat) - rank(self.path, self.budget as nat)) as nat
        }
    }
}

pub proof fn lemma_span_positive(depth: nat)
    ensures
        span(depth) >= 1,
    decreases depth,
{
    if depth > 0 {
        lemma_span_positive((depth - 1) as nat);
        let s = span((depth - 1) as nat);
        assert(radix() * s >= 1) by (nonlinear_arith)
            requires
                s >= 1,
                radix() >= 2,
        ;
    }
}

/// A rank is never negative and stays below the span of its depth.
pub proof fn lemma_rank_bound(path: Seq<Slot>, depth: nat)
    ensures
        0 <= rank(path, depth) <= span(depth) - 1,
    decreases depth,
{
    lemma_span_positive(depth);
    if depth > 0 && path.len() > 0 {
        let below = (depth - 1) as nat;
        lemma_rank_bound(path.skip(1), below);
        lemma_span_positive(below);
        let s = span(below);
        let d = path[0].value + 1;
        assert(0 <= d * s <= (radix() - 1) * s) by (nonlinear_arith)
            requires
                s >= 1,
                0 <= d <= radix() - 1,
        ;
        assert((radix() - 1) * s + s == radix() * s) by (nonlinear_arith);
    }
}

/// A path that keeps the values of another and may go on beyond it does not
/// rank below it.
pub proof fn lemma_rank_of_extension(short: Seq<Slot>, long: Seq<Slot>, depth: nat)
    requires
        short.len() <= long.len(),
        forall|i: int| 0 <= i < short.len() ==> (#[trigger] long[i]).value == short[i].value,
    ensures
        rank(short, depth) <= rank(long, depth),
    decreases depth,
{
    if depth == 0 || short.len() == 0 {
        lemma_rank_bound(long, depth);
    } else {
        let below = (depth - 1) as nat;
        assert(long[0].value == short[0].value);
        assert forall|i: int| 0 <= i < short.skip(1).len() implies (#[trigger] long.skip(1)[i]).value
            == short.skip(1)[i].value by {
            assert(long[i + 1].value == short[i + 1].value);
        }
        lemma_rank_of_extension(short.skip(1), long.skip(1), below);
    }
}

/// Of two paths that agree in their values up to a position within the
/// depth, the one with the higher value at that position ranks higher.
pub proof fn lemma_rank_of_higher(low: Seq<Slot>, high: Seq<Slot>, at: int, depth: nat)
    requires
        0 <= at < low.len(),
        at < high.len(),
        at < depth,
        forall|i: int| 0 <= i < at ==> (#[trigger] high[i]).value == low[i].value,
        low[at].value < high[at].value,
    ensures
        rank(low, depth) < rank(high, depth),
    decreases depth,
{
    let below = (depth - 1) as nat;
    let s = span(below);
    lemma_span_positive(below);
    if at == 0 {
        lemma_rank_bound(low.skip(1), below);
        lemma_rank_bound(high.skip(1), below);
        let l = low[0].value + 1;
        let h = high[0].value + 1;
        assert(l * s + s <= h * s) by (nonlinear_arith)
            requires
                l + 1 <= h,
                s >= 1,
        ;
    } else {
        assert(high[0].value == low[0].value);
        assert forall|i: int| 0 <= i < at - 1 implies (#[trigger] high.skip(1)[i]).value == low.skip(
            1,
        )[i].value by {
            assert(high[i + 1].value == low[i + 1].value);
        }
        lemma_rank_of_higher(low.skip(1), high.skip(1), at - 1, below);
    }
}

/// The successor of a valid path is valid and no longer than the path. Where
/// it is not empty, it keeps the path up to its own last position and holds
/// there the path's value plus one.
pub proof fn lemma_successor_shape(path: Seq<Slot>)
    requires
        valid(path),
    ensures
        valid(successor(path)),
        successor(path).len() <= path.len(),
        successor(path).len() > 0 ==> {
            let at = successor(path).len() - 1;
            &&& forall|i: int| 0 <= i < at ==> (#[trigger] successor(path)[i]) == path[i]
            &&& successor(path)[at].value == path[at].value + 1
            &&& successor(path)[at].max == path[at].max
        },
    decreases path.len(),
{
    if path.len() > 0 {
        if path.last().value == path.last().max {
            lemma_successor_shape(path.drop_last());
        } else {
            let next = successor(path);
            assert(path.last().value < path.last().max);
            assert forall|i: int| 0 <= i < next.len() implies (#[trigger] next[i]).value
                <= next[i].max by {
                if i < next.len() - 1 {
                    assert(next[i] == path[i]);
                }
            }
        }
    }
}

/// The successor of a valid path within the depth, unless empty, ranks above
/// the path.
pub proof fn lemma_successor_ranks_higher(path: Seq<Slot>, depth: nat)
    requires
        valid(path),
        path.len() <= depth,
        successor(path).len() > 0,
    ensures
        rank(path, depth) < rank(successor(path), depth),
{
    lemma_successor_shape(path);
    let next = successor(path);
    let at = next.len() - 1;
    assert forall|i: int| 0 <= i < at implies (#[trigger] next[i]).value == path[i].value by {
        assert(next[i] == path[i]);
    }
    lemma_rank_of_higher(path, next, at, depth);
}

/// One attempt brings a session that is not exhausted closer to its end: if
/// `after` is a run that follows the run handed out, the session that goes on
/// with its path is bounded again and has a smaller measure.
pub proof fn lemma_attempt_decreases(session: Session, after: Run)
    requires
        session.bounded(),
        !session.exhausted(),
        session.advanced().start().follows(after),
    ensures
        session.advanced().resumed(after.path).bounded(),
        session.advanced().resumed(after.path).measure() < session.measure(),
{
    let depth = session.budget as nat;
    let handed = session.advanced().start();
    lemma_successor_shape(session.path);
    lemma_rank_bound(after.path, depth);
    lemma_rank_bound(session.path, depth);
    if !session.first_run {
        lemma_successor_ranks_higher(session.path, depth);
        lemma_rank_of_extension(handed.path, after.path, depth);
    }
}

} // verus!
