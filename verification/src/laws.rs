//! Laws of the engine that relate several of its operations.

use crate::construct::{attempts, collected, Exhaustive};
use crate::order::{
    lemma_attempt_decreases, lemma_rank_of_extension, lemma_successor_ranks_higher, rank,
};
use crate::path::{lemma_choice_follows, successor, ChoiceError, Run, Session, Slot};
use vstd::prelude::*;

verus! {

/// With any budget of at least one choice, the enumeration of `bool` is
/// `false`, then `true`, and nothing else.
pub proof fn lemma_bool_enumeration(budget: usize, out: Seq<bool>)
    requires
        budget >= 1,
        collected::<bool>(attempts::<bool>(Session::fresh(budget)), out),
    ensures
        out == seq![false, true],
{
    // The first attempt opens one position and builds `false`.
    let fresh = Session::fresh(budget);
    let first = fresh.advanced().start();
    let opened = seq![Slot { value: 0, max: 1 }];
    assert(first.choice(2).path == opened);
    let once = Session { path: opened, first_run: false, budget };
    assert(fresh.advanced().resumed(first.choice(2).path) == once);
    // The second replays the position moved on by one and builds `true`.
    let moved = seq![Slot { value: 1, max: 1 }];
    assert(opened.drop_last().push(Slot { value: 1, max: 1 }) == moved);
    assert(successor(opened) == moved);
    let second = once.advanced().start();
    assert(second.choice(2).path == moved);
    let twice = Session { path: moved, first_run: false, budget };
    assert(once.advanced().resumed(second.choice(2).path) == twice);
    // Then the only position is at its maximum, and no path is left.
    assert(successor(moved.drop_last()).len() == 0);
    assert(successor(moved).len() == 0);
    assert(twice.exhausted());
    assert(twice.bounded() && once.bounded() && fresh.bounded());
    assert(attempts::<bool>(twice) == Seq::<Run>::empty());
    assert(attempts::<bool>(once) == seq![second] + attempts::<bool>(twice));
    assert(attempts::<bool>(fresh) == seq![first] + attempts::<bool>(once));
    let runs = attempts::<bool>(fresh);
    assert(runs == seq![first, second]);
    assert(runs.last() == second);
    assert(runs.drop_last() == seq![first]);
    assert(runs.drop_last().last() == first);
    assert(runs.drop_last().drop_last().len() == 0);
    assert(second.chosen(2) == Ok::<usize, ChoiceError>(1));
    assert(first.chosen(2) == Ok::<usize, ChoiceError>(0));
    assert(collected::<bool>(runs.drop_last(), out.drop_last()));
    assert(collected::<bool>(runs.drop_last().drop_last(), out.drop_last().drop_last()));
    assert(out.len() == 2);
    assert(out[1] == true);
    assert(out[0] == false);
}

/// A choice with a single outcome returns zero and leaves the run as it
/// was: path, cursor and budget, whatever the budget is.
pub proof fn lemma_degenerate_choice(run: Run)
    ensures
        run.chosen(1) == Ok::<usize, ChoiceError>(0),
        run.choice(1) == run,
{
}

/// An exhausted session stays exhausted: the step between attempts leaves
/// it without a path to walk, however often it is taken.
pub proof fn lemma_exhaustion_is_final(session: Session)
    requires
        session.exhausted(),
    ensures
        session.advanced().exhausted(),
        session.advanced().wf(),
        session.advanced().advanced() == session.advanced(),
{
    let gone = session.advanced().path;
    assert(gone.len() == 0);
    assert(successor(gone) == gone);
}

/// There is one outcome for each range.
pub proof fn lemma_outcomes_len(run: Run, ranges: Seq<usize>)
    ensures
        run.outcomes(ranges).len() == ranges.len(),
    decreases ranges.len(),
{
    if ranges.len() > 0 {
        lemma_outcomes_len(run.choice(ranges[0]), ranges.skip(1));
    }
}

/// A pass of choices leaves a well-formed run, whose path keeps every
/// position that it had before the pass.
pub proof fn lemma_after_keeps(run: Run, ranges: Seq<usize>)
    requires
        run.wf(),
        forall|i: int| 0 <= i < ranges.len() ==> ranges[i] > 0,
    ensures
        run.after(ranges).wf(),
        run.path.len() <= run.after(ranges).path.len(),
        forall|i: int| 0 <= i < run.path.len() ==> run.after(ranges).path[i] == run.path[i],
    decreases ranges.len(),
{
    if ranges.len() > 0 {
        let next = run.choice(ranges[0]);
        let rest = ranges.skip(1);
        lemma_choice_follows(run, ranges[0]);
        assert forall|i: int| 0 <= i < rest.len() implies rest[i] > 0 by {
            assert(rest[i] == ranges[i + 1]);
        }
        lemma_after_keeps(next, rest);
        assert forall|i: int| 0 <= i < run.path.len() implies run.after(ranges).path[i]
            == run.path[i] by {
            assert(next.path[i] == run.path[i]);
        }
    }
}

/// A second pass over the path that a first pass left, from the cursor at
/// which the first began, returns wherever both return a value the value
/// that the first returned.
proof fn lemma_replay_agrees(run: Run, replay: Run, ranges: Seq<usize>, i: int)
    requires
        run.wf(),
        forall|j: int| 0 <= j < ranges.len() ==> ranges[j] > 0,
        0 <= i < ranges.len(),
        run.left == 0 || replay.left == 0 || (replay.cursor == run.cursor && replay.path
            == run.after(ranges).path),
        run.outcomes(ranges)[i] is Ok,
        replay.outcomes(ranges)[i] is Ok,
    ensures
        replay.outcomes(ranges)[i] == run.outcomes(ranges)[i],
    decreases ranges.len(),
{
    let range = ranges[0];
    let rest = ranges.skip(1);
    let run_next = run.choice(range);
    let replay_next = replay.choice(range);
    lemma_choice_follows(run, range);
    assert forall|j: int| 0 <= j < rest.len() implies rest[j] > 0 by {
        assert(rest[j] == ranges[j + 1]);
    }
    lemma_after_keeps(run_next, rest);
    lemma_outcomes_len(run_next, rest);
    lemma_outcomes_len(replay_next, rest);
    assert(run.after(ranges) == run_next.after(rest));
    if i == 0 {
        assert(run.outcomes(ranges)[0] == run.chosen(range));
        assert(replay.outcomes(ranges)[0] == replay.chosen(range));
        if range != 1 {
            assert(run_next.path[run.cursor as int] == run.after(ranges).path[run.cursor as int]);
        }
    } else {
        assert(run.outcomes(ranges)[i] == run_next.outcomes(rest)[i - 1]);
        assert(replay.outcomes(ranges)[i] == replay_next.outcomes(rest)[i - 1]);
        lemma_replay_agrees(run_next, replay_next, rest, i - 1);
    }
}

/// With at least the budget of a first pass, a second pass returns a value
/// wherever the first did.
proof fn lemma_replay_completes(run: Run, replay: Run, ranges: Seq<usize>, i: int)
    requires
        0 <= i < ranges.len(),
        replay.left >= run.left,
        run.outcomes(ranges)[i] is Ok,
    ensures
        replay.outcomes(ranges)[i] is Ok,
    decreases ranges.len(),
{
    if i > 0 {
        let rest = ranges.skip(1);
        let run_next = run.choice(ranges[0]);
        let replay_next = replay.choice(ranges[0]);
        lemma_outcomes_len(run_next, rest);
        lemma_outcomes_len(replay_next, rest);
        assert(run.outcomes(ranges)[i] == run_next.outcomes(rest)[i - 1]);
        assert(replay.outcomes(ranges)[i] == replay_next.outcomes(rest)[i - 1]);
        lemma_replay_completes(run_next, replay_next, rest, i - 1);
    }
}

/// Restart law. Let a run at position zero make one choice for each entry of
/// `ranges`, then be put back to position zero with any budget and make the
/// same choices again. Wherever both passes return a value, it is the same
/// value; and with a budget no smaller than that of the first pass, the
/// second returns a value wherever the first did.
pub proof fn lemma_restart_replays(run: Run, ranges: Seq<usize>, budget: nat)
    requires
        run.wf(),
        run.cursor == 0,
        forall|i: int| 0 <= i < ranges.len() ==> ranges[i] > 0,
    ensures
        run.outcomes(ranges).len() == ranges.len(),
        run.after(ranges).restarted(budget).outcomes(ranges).len() == ranges.len(),
        forall|i: int|
            #![trigger run.outcomes(ranges)[i]]
            0 <= i < ranges.len() && run.outcomes(ranges)[i] is Ok && run.after(ranges).restarted(
                budget,
            ).outcomes(ranges)[i] is Ok ==> run.after(ranges).restarted(budget).outcomes(ranges)[i]
                == run.outcomes(ranges)[i],
        budget >= run.left ==> forall|i: int|
            #![trigger run.outcomes(ranges)[i]]
            0 <= i < ranges.len() && run.outcomes(ranges)[i] is Ok ==> run.after(ranges).restarted(
                budget,
            ).outcomes(ranges)[i] is Ok,
{
    let replay = run.after(ranges).restarted(budget);
    lemma_outcomes_len(run, ranges);
    lemma_outcomes_len(replay, ranges);
    assert forall|i: int|
        #![trigger run.outcomes(ranges)[i]]
        0 <= i < ranges.len() && run.outcomes(ranges)[i] is Ok && replay.outcomes(ranges)[i]
            is Ok implies replay.outcomes(ranges)[i] == run.outcomes(ranges)[i] by {
        lemma_replay_agrees(run, replay, ranges, i);
    }
    if budget >= run.left {
        assert forall|i: int|
            #![trigger run.outcomes(ranges)[i]]
            0 <= i < ranges.len() && run.outcomes(ranges)[i] is Ok implies replay.outcomes(
            ranges,
        )[i] is Ok by {
            lemma_replay_completes(run, replay, ranges, i);
        }
    }
}

/// Every attempt but the first of a walk starts on a path that ranks above
/// the path on which the first starts.
proof fn lemma_attempts_rank_above_first<T: Exhaustive>(session: Session, k: int)
    requires
        session.bounded(),
        0 < k < attempts::<T>(session).len(),
    ensures
        rank(attempts::<T>(session)[0].path, session.budget as nat) < rank(
            attempts::<T>(session)[k].path,
            session.budget as nat,
        ),
    decreases session.measure(),
{
    let depth = session.budget as nat;
    let handed = session.advanced().start();
    let after = T::run_after(handed);
    let next = session.advanced().resumed(after.path);
    lemma_attempt_decreases(session, after);
    let rest = attempts::<T>(next);
    assert(attempts::<T>(session)[k] == rest[k - 1]);
    assert(rest.len() > 0);
    assert(!next.exhausted());
    lemma_successor_ranks_higher(after.path, depth);
    lemma_rank_of_extension(handed.path, after.path, depth);
    assert(rest[0].path == successor(after.path));
    if k > 1 {
        lemma_attempts_rank_above_first::<T>(next, k - 1);
    }
}

/// The walk hands out no path twice: of two attempts, the later starts on a
/// path of higher rank, so on another path.
pub proof fn lemma_attempts_ascend<T: Exhaustive>(session: Session, i: int, j: int)
    requires
        session.bounded(),
        0 <= i < j < attempts::<T>(session).len(),
    ensures
        rank(attempts::<T>(session)[i].path, session.budget as nat) < rank(
            attempts::<T>(session)[j].path,
            session.budget as nat,
        ),
        attempts::<T>(session)[i].path != attempts::<T>(session)[j].path,
    decreases session.measure(),
{
    if i == 0 {
        lemma_attempts_rank_above_first::<T>(session, j);
    } else {
        let handed = session.advanced().start();
        let after = T::run_after(handed);
        let next = session.advanced().resumed(after.path);
        lemma_attempt_decreases(session, after);
        let rest = attempts::<T>(next);
        assert(attempts::<T>(session)[i] == rest[i - 1]);
        assert(attempts::<T>(session)[j] == rest[j - 1]);
        lemma_attempts_ascend::<T>(next, i - 1, j - 1);
    }
}

} // verus!
