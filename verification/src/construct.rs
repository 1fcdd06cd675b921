//! The construction contract, and the driver that enumerates every value a
//! construction can build within a budget.

use crate::order::lemma_attempt_decreases;
use crate::order::lemma_successor_shape;
use crate::path::{ChoiceError, Run, Session};
use crate::source::{DataSource, DataSourceTaker};
use vstd::prelude::*;

verus! {

/// A type whose values can be built from the choices of a run.
///
/// A construction is a function of the run it is given: which choices it
/// makes, whether the budget suffices and what it builds depend on nothing
/// else. The three spec functions say what that function is, and
/// `arbitrary` is held to them. As they stand in the trait they describe the
/// construction that makes no choice; a type whose construction makes
/// choices states its own.
pub trait Exhaustive: Sized {
    /// The run as `arbitrary` leaves it.
    open spec fn run_after(run: Run) -> Run {
        run
    }

    /// Whether the budget of `run` suffices for `arbitrary` to build a value.
    open spec fn completes(run: Run) -> bool {
        true
    }

    /// Whether `self` is the value that `arbitrary` builds from `run`.
    open spec fn built_from(&self, run: Run) -> bool {
        true
    }

    /// Builds a value from the choices of `u`, or fails where the budget of
    /// `u` runs out on the way. It only makes choices and lowers maxima.
    fn arbitrary(u: &mut DataSourceTaker) -> (r: Result<Self, ChoiceError>)
        requires
            old(u)@.wf(),
        ensures
            old(u)@.follows(final(u)@),
            final(u)@ == Self::run_after(old(u)@),
            r is Ok <==> Self::completes(old(u)@),
            r matches Ok(v) ==> v.built_from(old(u)@),
            *final(final(u).lease()) == *final(old(u).lease()),
    ;
}

/// The driver, for every type that can be constructed.
pub trait Enumerate: Exhaustive {
    /// Every value that can be built with at most `max_length` choices, in
    /// the order of the walk. Attempts that run out of budget are passed
    /// over.
    fn iter_exhaustive(max_length: usize) -> (out: Vec<Self>)
        ensures
            collected::<Self>(attempts::<Self>(Session::fresh(max_length)), out@),
    {
        let mut source = DataSource::new(max_length);
        let mut out: Vec<Self> = Vec::new();
        let ghost mut done: Seq<Run> = Seq::empty();
        loop
            invariant
                source@.bounded(),
                source@.budget == max_length,
                attempts::<Self>(Session::fresh(max_length)) == done + attempts::<Self>(source@),
                collected::<Self>(done, out@),
            ensures
                collected::<Self>(attempts::<Self>(Session::fresh(max_length)), out@),
            decreases source@.measure(),
        {
            let ghost before = source@;
            let ghost handed = before.advanced().start();
            proof {
                lemma_successor_shape(before.path);
            }
            match source.next_run() {
                None => {
                    assert(done + Seq::<Run>::empty() == done);
                    break;
                },
                Some(mut run) => {
                    let r = Self::arbitrary(&mut run);
                    proof {
                        run.lemma_lease_ends();
                        lemma_attempt_decreases(before, Self::run_after(handed));
                        let grown = done.push(handed);
                        assert(grown.drop_last() == done);
                    }
                    match r {
                        Ok(v) => {
                            let ghost kept = out@;
                            out.push(v);
                            assert(out@.drop_last() == kept);
                        },
                        Err(_) => {},
                    }
                    proof {
                        let rest = attempts::<Self>(
                            before.advanced().resumed(Self::run_after(handed).path),
                        );
                        assert(done + (seq![handed] + rest) == done.push(handed) + rest);
                        done = done.push(handed);
                    }
                },
            }
        }
        out
    }
}

impl<T: Exhaustive> Enumerate for T {
}

/// The runs handed out from `session` on, in order, until it is exhausted,
/// when each attempt is a construction of a `T`. The walk goes on past an
/// attempt as long as the construction only makes choices and lowers maxima,
/// as every `arbitrary` does.
pub open spec fn attempts<T: Exhaustive>(session: Session) -> Seq<Run>
    decreases session.measure(),
    when session.bounded()
{
    if session.exhausted() {
        Seq::empty()
    } else {
        let handed = session.advanced().start();
        let after = T::run_after(handed);
        if handed.follows(after) {
            proof {
                lemma_attempt_decreases(session, after);
            }
            seq![handed] + attempts::<T>(session.advanced().resumed(after.path))
        } else {
            seq![handed]
        }
    }
}

/// `out` holds, in order, one value for each run of `runs` on which a
/// construction of a `T` completes: the value built from that run.
pub open spec fn collected<T: Exhaustive>(runs: Seq<Run>, out: Seq<T>) -> bool
    decreases runs.len(),
{
    if runs.len() == 0 {
        out.len() == 0
    } else if T::completes(runs.last()) {
        &&& out.len() > 0
        &&& out.last().built_from(runs.last())
        &&& collected::<T>(runs.drop_last(), out.drop_last())
    } else {
        collected::<T>(runs.drop_last(), out)
    }
}

} // verus!
