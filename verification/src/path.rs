//! The mathematical model of the enumeration: paths through the choice tree,
//! the run that walks one path, and the session that steps from path to path.

use vstd::prelude::*;

verus! {

/// One position on a path: the value chosen there, and the largest value
/// that the position can take.
#[derive(Clone, Copy, Debug)]
pub struct Slot {
    pub value: usize,
    pub max: usize,
}

/// The only recoverable failure: a choice was asked for when the budget of
/// the attempt was used up.
#[derive(Debug)]
pub struct ChoiceError;

/// Every position holds a value that does not exceed its maximum.
pub open spec fn valid(path: Seq<Slot>) -> bool {
    forall|i: int| 0 <= i < path.len() ==> (#[trigger] path[i]).value <= path[i].max
}

/// The range offered for the length of a repeated construction when `left`
/// choices remain: every count from zero up to the whole remaining budget,
/// as far as `usize` can hold it.
pub open spec fn count_range(left: nat) -> usize {
    if left < usize::MAX {
        (left + 1) as usize
    } else {
        usize::MAX
    }
}

/// One attempt, seen as a value: the path, how far along it the attempt has
/// come, and how many choices it may still make.
pub struct Run {
    pub path: Seq<Slot>,
    pub cursor: nat,
    pub left: nat,
}

impl Run {
    /// The cursor lies within the path, and the path is valid.
    pub open spec fn wf(self) -> bool {
        &&& self.cursor <= self.path.len()
        &&& valid(self.path)
    }

    /// What a choice among `range` outcomes returns.
    pub open spec fn chosen(self, range: usize) -> Result<usize, ChoiceError> {
        if range == 1 {
            Ok(0)
        } else if self.left == 0 {
            Err(ChoiceError)
        } else if self.cursor < self.path.len() {
            Ok(self.path[self.cursor as int].value)
        } else {
            Ok(0)
        }
    }

    /// The run after a choice among `range` outcomes.
    pub open spec fn choice(self, range: usize) -> Run {
        if range == 1 || self.left == 0 {
            self
        } else if self.cursor < self.path.len() {
            Run { path: self.path, cursor: self.cursor + 1, left: (self.left - 1) as nat }
        } else {
            Run {
                path: self.path.push(Slot { value: 0, max: (range - 1) as usize }),
                cursor: self.cursor + 1,
                left: (self.left - 1) as nat,
            }
        }
    }

    /// The run put back to position zero with a budget of `budget`.
    pub open spec fn restarted(self, budget: nat) -> Run {
        Run { path: self.path, cursor: 0, left: budget }
    }

    /// The run with the maximum at position `at` lowered to the value chosen
    /// there, so that the position counts as used up.
    pub open spec fn capped(self, at: int) -> Run {
        Run {
            path: self.path.update(at, Slot { value: self.path[at].value, max: self.path[at].value }),
            ..self
        }
    }

    /// `next` can be reached from `self` by making choices and lowering
    /// maxima: the cursor only advances, each step of it pays one choice, the
    /// values already on the path stay, and the path grows no further than
    /// the budget reaches.
    pub open spec fn follows(self, next: Run) -> bool {
        &&& next.wf()
        &&& self.cursor <= next.cursor
        &&& next.cursor + next.left == self.cursor + self.left
        &&& self.path.len() <= next.path.len()
        &&& next.path.len() <= self.path.len() || next.path.len() <= self.cursor + self.left
        &&& forall|i: int|
            0 <= i < self.path.len() ==> (#[trigger] next.path[i]).value == self.path[i].value
    }

    /// The run after one choice for each entry of `ranges`, in order.
    pub open spec fn after(self, ranges: Seq<usize>) -> Run
        decreases ranges.len(),
    {
        if ranges.len() == 0 {
            self
        } else {
            self.choice(ranges[0]).after(ranges.skip(1))
        }
    }

    /// What one choice for each entry of `ranges` returns, in order.
    pub open spec fn outcomes(self, ranges: Seq<usize>) -> Seq<Result<usize, ChoiceError>>
        decreases ranges.len(),
    {
        if ranges.len() == 0 {
            Seq::empty()
        } else {
            seq![self.chosen(ranges[0])] + self.choice(ranges[0]).outcomes(ranges.skip(1))
        }
    }
}

/// A choice is a step that a run can be followed by.
pub proof fn lemma_choice_follows(run: Run, range: usize)
    requires
        run.wf(),
        range > 0,
    ensures
        run.follows(run.choice(range)),
{
}

/// What follows a follower of a run follows the run.
pub proof fn lemma_follows_transitive(first: Run, second: Run, third: Run)
    requires
        first.follows(second),
        second.follows(third),
    ensures
        first.follows(third),
{
    assert forall|i: int| 0 <= i < first.path.len() implies (#[trigger] third.path[i]).value
        == first.path[i].value by {
        assert(second.path[i].value == first.path[i].value);
    }
}

/// Lowering the maximum of a position that the path has keeps a follower a
/// follower.
pub proof fn lemma_capped_follows(first: Run, second: Run, at: int)
    requires
        first.follows(second),
        0 <= at < second.path.len(),
    ensures
        first.follows(second.capped(at)),
{
    let capped = second.capped(at);
    assert forall|i: int| 0 <= i < capped.path.len() implies (#[trigger] capped.path[i]).value
        <= capped.path[i].max by {
        if i != at {
            assert(second.path[i].value <= second.path[i].max);
        }
    }
    assert forall|i: int| 0 <= i < first.path.len() implies (#[trigger] capped.path[i]).value
        == first.path[i].value by {
        assert(second.path[i].value == first.path[i].value);
    }
}

/// The path that follows `path` in the walk: positions at their maximum are
/// dropped from the end, and the last position left is moved on by one.
/// Empty when every position is at its maximum.
pub open spec fn successor(path: Seq<Slot>) -> Seq<Slot>
    decreases path.len(),
{
    if path.len() == 0 {
        path
    } else if path.last().value == path.last().max {
        successor(path.drop_last())
    } else {
        path.drop_last().push(Slot { value: (path.last().value + 1) as usize, max: path.last().max })
    }
}

/// The whole walk, seen as a value: the path of the latest attempt, whether
/// an attempt was handed out yet, and the budget of each attempt.
pub struct Session {
    pub path: Seq<Slot>,
    pub first_run: bool,
    pub budget: usize,
}

impl Session {
    /// The session before any attempt.
    pub open spec fn fresh(budget: usize) -> Session {
        Session { path: Seq::empty(), first_run: true, budget }
    }

    /// The path is valid.
    pub open spec fn wf(self) -> bool {
        valid(self.path)
    }

    /// Well formed, and the path no longer than the budget.
    pub open spec fn bounded(self) -> bool {
        &&& self.wf()
        &&& self.path.len() <= self.budget
    }

    /// No path is left to walk.
    pub open spec fn exhausted(self) -> bool {
        !self.first_run && successor(self.path).len() == 0
    }

    /// The session after the step between two attempts: unchanged before the
    /// first attempt, moved to the next path afterwards.
    pub open spec fn advanced(self) -> Session {
        if self.first_run {
            Session { first_run: false, ..self }
        } else {
            Session { path: successor(self.path), ..self }
        }
    }

    /// The run that starts on the session's path with the full budget.
    pub open spec fn start(self) -> Run {
        Run { path: self.path, cursor: 0, left: self.budget as nat }
    }

    /// The session once an attempt has left `path` behind.
    pub open spec fn resumed(self, path: Seq<Slot>) -> Session {
        Session { path, ..self }
    }
}

} // verus!
