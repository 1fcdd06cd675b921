//! The engine: the session that owns the path, and the run that hands out
//! the choices of one attempt.

use crate::construct::Exhaustive;
use crate::path::{
    count_range, lemma_capped_follows, successor, valid, ChoiceError, Run, Session, Slot,
};
use std::marker::PhantomData;
use vstd::prelude::*;

verus! {

/// One attempt at building a value. It borrows the path of its session,
/// replays what the path records, and extends it where the attempt goes
/// deeper than any before.
pub struct DataSourceTaker<'a> {
    choices_left: usize,
    path: &'a mut Vec<Slot>,
    buffer_idx: usize,
}

impl<'a> View for DataSourceTaker<'a> {
    type V = Run;

    closed spec fn view(&self) -> Run {
        Run { path: self.path@, cursor: self.buffer_idx as nat, left: self.choices_left as nat }
    }
}

impl<'a> DataSourceTaker<'a> {
    /// The borrow of the session's path that this run holds. What the path
    /// is when the borrow ends is what the session goes on with.
    pub closed spec fn lease(&self) -> &'a mut Vec<Slot> {
        self.path
    }

    /// Once the run is no longer used, the path it holds is the path that
    /// its borrow ends with.
    pub proof fn lemma_lease_ends(self)
        ensures
            has_resolved(self) ==> (*final(self.lease()))@ == self@.path,
    {
    }

    /// Puts the run back to position zero with a budget of `max_choices`, so
    /// that the same construction can be made once more.
    pub fn reset(&mut self, max_choices: usize)
        ensures
            final(self)@ == old(self)@.restarted(max_choices as nat),
            valid(old(self)@.path) ==> final(self)@.wf(),
            *final(final(self).lease()) == *final(old(self).lease()),
    {
        self.choices_left = max_choices;
        self.buffer_idx = 0;
    }

    /// Makes one choice among `range` outcomes. A choice with one outcome
    /// costs nothing and leaves no trace. Any other costs one unit of the
    /// budget; it returns the recorded value where the path has one at the
    /// cursor, and opens a new position with value zero where it has none.
    pub fn choice(&mut self, range: usize) -> (r: Result<usize, ChoiceError>)
        requires
            old(self)@.wf(),
            range > 0,
        ensures
            r == old(self)@.chosen(range),
            final(self)@ == old(self)@.choice(range),
            range == 1 ==> r == Ok::<usize, ChoiceError>(0) && final(self)@ == old(self)@,
            old(self)@.follows(final(self)@),
            *final(final(self).lease()) == *final(old(self).lease()),
    {
        if range == 1 {
            return Ok(0);
        }
        if self.choices_left == 0 {
            return Err(ChoiceError);
        }
        self.choices_left -= 1;

        if self.buffer_idx < self.path.len() {
            let data: usize = self.path[self.buffer_idx].value;
            self.buffer_idx += 1;
            return Ok(data);
        }
        self.path.push(Slot { value: 0, max: range - 1 });
        assert(self.buffer_idx < self.path.len());
        self.buffer_idx += 1;
        Ok(0)
    }

    /// Starts a repeated construction: chooses how many elements to build,
    /// among every count from zero up to the remaining budget, and hands out
    /// the elements one by one.
    pub fn iter_of<'b, T: Exhaustive>(&'b mut self) -> (r: Result<
        DataSourceTakerIter<'a, 'b, T>,
        ChoiceError,
    >)
        requires
            old(self)@.wf(),
        ensures
            r matches Ok(it) && {
                &&& it.wf()
                &&& old(self)@.follows(it.taker()@)
                &&& old(self)@.chosen(count_range(old(self)@.left)) == Ok::<usize, ChoiceError>(
                    it.remaining(),
                )
                &&& it.taker()@ == old(self)@.choice(count_range(old(self)@.left))
                &&& it.remaining() > 0 ==> it.count_at() == old(self)@.cursor
                &&& *final(it.taker().lease()) == *final(old(self).lease())
                &&& *final(it.lease()) == *final(self)
            },
    {
        let range: usize = if self.choices_left < usize::MAX {
            self.choices_left + 1
        } else {
            usize::MAX
        };
        let max_count: usize = self.choice(range)?;
        let max_count_idx: usize = if self.buffer_idx > 0 {
            self.buffer_idx - 1
        } else {
            0
        };
        Ok(DataSourceTakerIter { max_count_idx, max_count, taker: self, phantom: PhantomData })
    }
}

/// The elements of a repeated construction, built one at a time from the
/// run that the construction borrows.
pub struct DataSourceTakerIter<'a, 'b, T: Exhaustive> {
    max_count_idx: usize,
    max_count: usize,
    taker: &'b mut DataSourceTaker<'a>,
    phantom: PhantomData<T>,
}

impl<'a, 'b, T: Exhaustive> DataSourceTakerIter<'a, 'b, T> {
    /// The run that the elements are built from, as it stands.
    pub closed spec fn taker(&self) -> DataSourceTaker<'a> {
        *self.taker
    }

    /// The borrow of the run. What the run is when the borrow ends is what
    /// the construction goes on with.
    pub closed spec fn lease(&self) -> &'b mut DataSourceTaker<'a> {
        self.taker
    }

    /// How many elements are still to be built.
    pub closed spec fn remaining(&self) -> usize {
        self.max_count
    }

    /// The position on the path that holds the number of elements.
    pub closed spec fn count_at(&self) -> int {
        self.max_count_idx as int
    }

    /// The run is well formed, and while elements are still to be built the
    /// position of their number lies before the cursor.
    pub open spec fn wf(&self) -> bool {
        &&& self.taker()@.wf()
        &&& self.remaining() > 0 ==> 0 <= self.count_at() < self.taker()@.cursor
    }

    /// Once the elements are no longer asked for, the run as it stands is
    /// the run that the borrow ends with.
    pub proof fn lemma_lease_ends(self)
        ensures
            has_resolved(self) ==> *final(self.lease()) == self.taker(),
    {
    }

    /// Builds the next element, or returns `None` when all were built. Where
    /// the budget runs out within an element, the maximum of the count is
    /// lowered to the count that was reached, and the failure is handed on.
    pub fn next(&mut self) -> (r: Option<Result<T, ChoiceError>>)
        requires
            old(self).wf(),
        ensures
            final(self).wf(),
            old(self).taker()@.follows(final(self).taker()@),
            final(self).count_at() == old(self).count_at(),
            *final(final(self).lease()) == *final(old(self).lease()),
            *final(final(self).taker().lease()) == *final(old(self).taker().lease()),
            old(self).remaining() == 0 ==> {
                &&& r is None
                &&& final(self).remaining() == 0
                &&& final(self).taker()@ == old(self).taker()@
            },
            old(self).remaining() > 0 ==> {
                &&& final(self).remaining() == old(self).remaining() - 1
                &&& r matches Some(item)
                &&& item is Ok <==> T::completes(old(self).taker()@)
                &&& item matches Ok(v) ==> v.built_from(old(self).taker()@)
                &&& final(self).taker()@ == element_after::<T>(
                    old(self).taker()@,
                    old(self).count_at(),
                )
            },
    {
        if self.max_count == 0 {
            return None;
        }
        self.max_count -= 1;
        let ghost before = self.taker@;
        match T::arbitrary(self.taker) {
            Ok(v) => Some(Ok(v)),
            Err(e) => {
                let at: usize = self.max_count_idx;
                proof {
                    lemma_capped_follows(before, self.taker@, at as int);
                }
                let value: usize = self.taker.path[at].value;
                self.taker.path[at] = Slot { value, max: value };
                Some(Err(e))
            },
        }
    }
}

/// The run after one element of a repeated construction of `T`s whose count
/// sits at position `at`: the run that the element leaves, with the maximum
/// of the count lowered where the budget did not suffice for the element.
pub open spec fn element_after<T: Exhaustive>(run: Run, at: int) -> Run {
    if T::completes(run) {
        T::run_after(run)
    } else {
        T::run_after(run).capped(at)
    }
}

/// The walk through all paths within a budget. It owns the path and lends
/// it to one run at a time.
pub struct DataSource {
    max_choices: usize,
    path: Vec<Slot>,
    first_run: bool,
}

impl View for DataSource {
    type V = Session;

    closed spec fn view(&self) -> Session {
        Session { path: self.path@, first_run: self.first_run, budget: self.max_choices }
    }
}

impl DataSource {
    /// A session that has handed out no run yet; each of its runs may make
    /// `max_choices` choices.
    pub fn new(max_choices: usize) -> (r: Self)
        ensures
            r@ == Session::fresh(max_choices),
    {
        Self { max_choices, path: Vec::new(), first_run: true }
    }

    /// Steps to the next path and hands out a run on it, or `None` when no
    /// path is left. The first call hands out the path as it stands.
    pub fn next_run(&mut self) -> (r: Option<DataSourceTaker<'_>>)
        requires
            old(self)@.wf(),
        ensures
            r is None <==> old(self)@.exhausted(),
            r is None ==> final(self)@.exhausted(),
            match r {
                None => final(self)@ == old(self)@.advanced() && final(self)@.wf(),
                Some(run) => {
                    &&& run@.wf()
                    &&& run@ == old(self)@.advanced().start()
                    &&& final(self)@ == old(self)@.advanced().resumed((*final(run.lease()))@)
                },
            },
    {
        if !self.first_run {
            let mut i: usize = self.path.len();
            while i > 0
                invariant_except_break
                    i == self.path.len(),
                    successor(self.path@) == successor(old(self).path@),
                invariant
                    valid(self.path@),
                    self.max_choices == old(self).max_choices,
                    self.first_run == old(self).first_run,
                ensures
                    self.path@ == successor(old(self).path@),
                decreases i,
            {
                i -= 1;
                let slot = self.path[i];
                if slot.value == slot.max {
                    let ghost before = self.path@;
                    self.path.pop();
                    assert(self.path@ == before.drop_last());
                } else {
                    let ghost before = self.path@;
                    self.path[i] = Slot { value: slot.value + 1, max: slot.max };
                    assert(self.path@ == successor(before));
                    break;
                }
            }
            if self.path.len() == 0 {
                return None;
            }
        }
        self.first_run = false;
        Some(DataSourceTaker { choices_left: self.max_choices, path: &mut self.path, buffer_idx: 0 })
    }
}

} // verus!
