//! The model of a repeated construction: a count, then that many elements,
//! each built from the run that the one before left.

use crate::construct::Exhaustive;
use crate::path::{count_range, Run};
use vstd::prelude::*;

verus! {

/// The number of elements that a repeated construction on `run` sets out to
/// build.
pub open spec fn count_of(run: Run) -> nat {
    match run.chosen(count_range(run.left)) {
        Ok(count) => count as nat,
        Err(_) => 0,
    }
}

/// The run once the number of elements is chosen.
pub open spec fn counted(run: Run) -> Run {
    run.choice(count_range(run.left))
}

/// The run from which element `i` is built, when the first is built from
/// `start` and all before it were completed.
pub open spec fn element_run<T: Exhaustive>(start: Run, i: nat) -> Run
    decreases i,
{
    if i == 0 {
        start
    } else {
        T::run_after(element_run::<T>(start, (i - 1) as nat))
    }
}

/// The run after `count` elements are asked for from `run` on, their number
/// sitting at position `at`: elements are built until one runs out of
/// budget, which lowers the maximum of the count and ends the construction.
pub open spec fn elements_after<T: Exhaustive>(run: Run, at: int, count: nat) -> Run
    decreases count,
{
    if count == 0 {
        run
    } else if T::completes(run) {
        elements_after::<T>(T::run_after(run), at, (count - 1) as nat)
    } else {
        T::run_after(run).capped(at)
    }
}

/// Whether the budget suffices for `count` elements from `run` on.
pub open spec fn elements_complete<T: Exhaustive>(run: Run, count: nat) -> bool
    decreases count,
{
    count == 0 || (T::completes(run) && elements_complete::<T>(
        T::run_after(run),
        (count - 1) as nat,
    ))
}

/// The run after `count` elements are asked for from `run` on, when their
/// number is fixed beforehand: elements are built until one runs out of
/// budget, which ends the construction.
pub open spec fn sequence_after<T: Exhaustive>(run: Run, count: nat) -> Run
    decreases count,
{
    if count == 0 {
        run
    } else if T::completes(run) {
        sequence_after::<T>(T::run_after(run), (count - 1) as nat)
    } else {
        T::run_after(run)
    }
}

/// The run that a repeated construction of `T`s leaves.
pub open spec fn repeated_after<T: Exhaustive>(run: Run) -> Run {
    elements_after::<T>(counted(run), run.cursor as int, count_of(run))
}

/// Whether the budget of `run` suffices for a repeated construction of `T`s.
pub open spec fn repeated_completes<T: Exhaustive>(run: Run) -> bool {
    elements_complete::<T>(counted(run), count_of(run))
}

/// Whether `items` are the elements that a repeated construction of `T`s
/// builds from `run`, in order.
pub open spec fn repeated_built<T: Exhaustive>(items: Seq<T>, run: Run) -> bool {
    &&& items.len() == count_of(run)
    &&& forall|i: int|
        0 <= i < items.len() ==> (#[trigger] items[i]).built_from(
            element_run::<T>(counted(run), i as nat),
        )
}

/// Taking as many items as a sequence has takes the sequence.
pub proof fn lemma_take_whole<A>(items: Seq<A>)
    ensures
        items.take(items.len() as int) == items,
{
}

} // verus!
