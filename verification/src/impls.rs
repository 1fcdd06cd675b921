//! Constructions of the types of the standard library.

use crate::construct::Exhaustive;
use crate::path::{lemma_follows_transitive, ChoiceError, Run};
use crate::repeat::{
    count_of, counted, element_run, elements_after, elements_complete, repeated_after,
    repeated_built, repeated_completes, sequence_after,
};
use crate::source::DataSourceTaker;
use std::collections::VecDeque;
use std::rc::Rc;
use std::sync::Arc;
use vstd::prelude::*;

verus! {

impl Exhaustive for bool {
    open spec fn run_after(run: Run) -> Run {
        run.choice(2)
    }

    open spec fn completes(run: Run) -> bool {
        run.chosen(2) is Ok
    }

    open spec fn built_from(&self, run: Run) -> bool {
        run.chosen(2) matches Ok(c) && *self == (c != 0)
    }

    fn arbitrary(u: &mut DataSourceTaker) -> (r: Result<Self, ChoiceError>) {
        Ok(u.choice(2)? != 0)
    }
}

/// Whether the `bool` built from `run` is `true`.
pub open spec fn flag(run: Run) -> bool {
    run.chosen(2) matches Ok(c) && c != 0
}

impl<T: Exhaustive> Exhaustive for Box<T> {
    open spec fn run_after(run: Run) -> Run {
        T::run_after(run)
    }

    open spec fn completes(run: Run) -> bool {
        T::completes(run)
    }

    open spec fn built_from(&self, run: Run) -> bool {
        (**self).built_from(run)
    }

    fn arbitrary(u: &mut DataSourceTaker) -> (r: Result<Self, ChoiceError>) {
        Ok(Self::new(T::arbitrary(u)?))
    }
}

impl<T: Exhaustive> Exhaustive for Rc<T> {
    open spec fn run_after(run: Run) -> Run {
        T::run_after(run)
    }

    open spec fn completes(run: Run) -> bool {
        T::completes(run)
    }

    open spec fn built_from(&self, run: Run) -> bool {
        (**self).built_from(run)
    }

    fn arbitrary(u: &mut DataSourceTaker) -> (r: Result<Self, ChoiceError>) {
        Ok(Self::new(T::arbitrary(u)?))
    }
}

impl<T: Exhaustive> Exhaustive for Arc<T> {
    open spec fn run_after(run: Run) -> Run {
        T::run_after(run)
    }

    open spec fn completes(run: Run) -> bool {
        T::completes(run)
    }

    open spec fn built_from(&self, run: Run) -> bool {
        (**self).built_from(run)
    }

    fn arbitrary(u: &mut DataSourceTaker) -> (r: Result<Self, ChoiceError>) {
        Ok(Self::new(T::arbitrary(u)?))
    }
}

impl Exhaustive for () {
    open spec fn run_after(run: Run) -> Run {
        run
    }

    open spec fn completes(run: Run) -> bool {
        true
    }

    open spec fn built_from(&self, run: Run) -> bool {
        true
    }

    fn arbitrary(_u: &mut DataSourceTaker) -> (r: Result<Self, ChoiceError>) {
        Ok(())
    }
}

/// The run after a construction of a `B` that comes behind a construction of
/// an `A`: the `B` is only begun where the `A` was completed.
pub open spec fn run_after_both<A: Exhaustive, B: Exhaustive>(run: Run) -> Run {
    if A::completes(run) {
        B::run_after(A::run_after(run))
    } else {
        A::run_after(run)
    }
}

/// Whether the budget of `run` suffices for an `A` and then a `B`.
pub open spec fn completes_both<A: Exhaustive, B: Exhaustive>(run: Run) -> bool {
    A::completes(run) && B::completes(A::run_after(run))
}

impl<T1: Exhaustive> Exhaustive for (T1,) {
    open spec fn run_after(run: Run) -> Run {
        T1::run_after(run)
    }

    open spec fn completes(run: Run) -> bool {
        T1::completes(run)
    }

    open spec fn built_from(&self, run: Run) -> bool {
        self.0.built_from(run)
    }

    fn arbitrary(u: &mut DataSourceTaker) -> (r: Result<Self, ChoiceError>) {
        Ok((T1::arbitrary(u)?,))
    }
}

impl<T1: Exhaustive, T2: Exhaustive> Exhaustive for (T1, T2) {
    open spec fn run_after(run: Run) -> Run {
        run_after_both::<T1, T2>(run)
    }

    open spec fn completes(run: Run) -> bool {
        completes_both::<T1, T2>(run)
    }

    open spec fn built_from(&self, run: Run) -> bool {
        &&& self.0.built_from(run)
        &&& self.1.built_from(T1::run_after(run))
    }

    fn arbitrary(u: &mut DataSourceTaker) -> (r: Result<Self, ChoiceError>) {
        let ghost start = u@;
        let first = T1::arbitrary(u)?;
        let ghost mid = u@;
        let second = T2::arbitrary(u);
        proof {
            lemma_follows_transitive(start, mid, u@);
        }
        Ok((first, second?))
    }
}

impl<T1: Exhaustive, T2: Exhaustive, T3: Exhaustive> Exhaustive for (T1, T2, T3) {
    open spec fn run_after(run: Run) -> Run {
        run_after_both::<(T1, T2), T3>(run)
    }

    open spec fn completes(run: Run) -> bool {
        completes_both::<(T1, T2), T3>(run)
    }

    open spec fn built_from(&self, run: Run) -> bool {
        &&& self.0.built_from(run)
        &&& self.1.built_from(T1::run_after(run))
        &&& self.2.built_from(<(T1, T2)>::run_after(run))
    }

    fn arbitrary(u: &mut DataSourceTaker) -> (r: Result<Self, ChoiceError>) {
        let ghost start = u@;
        let (first, second) = <(T1, T2)>::arbitrary(u)?;
        let ghost mid = u@;
        let third = T3::arbitrary(u);
        proof {
            lemma_follows_transitive(start, mid, u@);
        }
        Ok((first, second, third?))
    }
}

impl<T1: Exhaustive, T2: Exhaustive, T3: Exhaustive, T4: Exhaustive> Exhaustive for (
    T1,
    T2,
    T3,
    T4,
) {
    open spec fn run_after(run: Run) -> Run {
        run_after_both::<(T1, T2, T3), T4>(run)
    }

    open spec fn completes(run: Run) -> bool {
        completes_both::<(T1, T2, T3), T4>(run)
    }

    open spec fn built_from(&self, run: Run) -> bool {
        &&& self.0.built_from(run)
        &&& self.1.built_from(T1::run_after(run))
        &&& self.2.built_from(<(T1, T2)>::run_after(run))
        &&& self.3.built_from(<(T1, T2, T3)>::run_after(run))
    }

    fn arbitrary(u: &mut DataSourceTaker) -> (r: Result<Self, ChoiceError>) {
        let ghost start = u@;
        let (first, second, third) = <(T1, T2, T3)>::arbitrary(u)?;
        let ghost mid = u@;
        let fourth = T4::arbitrary(u);
        proof {
            lemma_follows_transitive(start, mid, u@);
        }
        Ok((first, second, third, fourth?))
    }
}

impl<T: Exhaustive> Exhaustive for Option<T> {
    open spec fn run_after(run: Run) -> Run {
        if bool::completes(run) && !flag(run) {
            T::run_after(run.choice(2))
        } else {
            run.choice(2)
        }
    }

    open spec fn completes(run: Run) -> bool {
        bool::completes(run) && (flag(run) || T::completes(run.choice(2)))
    }

    open spec fn built_from(&self, run: Run) -> bool {
        match self {
            None => flag(run),
            Some(v) => !flag(run) && v.built_from(run.choice(2)),
        }
    }

    fn arbitrary(u: &mut DataSourceTaker) -> (r: Result<Self, ChoiceError>) {
        let ghost start = u@;
        if bool::arbitrary(u)? {
            Ok(None)
        } else {
            let ghost mid = u@;
            let inner = T::arbitrary(u);
            proof {
                lemma_follows_transitive(start, mid, u@);
            }
            Ok(Some(inner?))
        }
    }
}

impl<T: Exhaustive, E: Exhaustive> Exhaustive for Result<T, E> {
    open spec fn run_after(run: Run) -> Run {
        if !bool::completes(run) {
            run.choice(2)
        } else if flag(run) {
            T::run_after(run.choice(2))
        } else {
            E::run_after(run.choice(2))
        }
    }

    open spec fn completes(run: Run) -> bool {
        &&& bool::completes(run)
        &&& if flag(run) {
            T::completes(run.choice(2))
        } else {
            E::completes(run.choice(2))
        }
    }

    open spec fn built_from(&self, run: Run) -> bool {
        match self {
            Ok(v) => flag(run) && v.built_from(run.choice(2)),
            Err(e) => !flag(run) && e.built_from(run.choice(2)),
        }
    }

    fn arbitrary(u: &mut DataSourceTaker) -> (r: Result<Self, ChoiceError>) {
        let ghost start = u@;
        let flag = bool::arbitrary(u)?;
        let ghost mid = u@;
        if flag {
            let inner = T::arbitrary(u);
            proof {
                lemma_follows_transitive(start, mid, u@);
            }
            Ok(Ok(inner?))
        } else {
            let inner = E::arbitrary(u);
            proof {
                lemma_follows_transitive(start, mid, u@);
            }
            Ok(Err(inner?))
        }
    }
}

impl<T: Exhaustive> Exhaustive for Vec<T> {
    open spec fn run_after(run: Run) -> Run {
        repeated_after::<T>(run)
    }

    open spec fn completes(run: Run) -> bool {
        repeated_completes::<T>(run)
    }

    open spec fn built_from(&self, run: Run) -> bool {
        repeated_built::<T>(self@, run)
    }

    fn arbitrary(u: &mut DataSourceTaker) -> (r: Result<Self, ChoiceError>) {
        let ghost run = u@;
        let ghost start = counted(run);
        let ghost count = count_of(run);
        let ghost at = run.cursor as int;
        let mut it = u.iter_of::<T>()?;
        let mut out: Vec<T> = Vec::new();
        loop
            invariant
                run == old(u)@,
                run.follows(it.taker()@),
                start == counted(run),
                count == count_of(run),
                at == run.cursor,
                it.wf(),
                it.remaining() > 0 ==> it.count_at() == at,
                out@.len() + it.remaining() == count,
                it.taker()@ == element_run::<T>(start, out@.len()),
                forall|j: int|
                    0 <= j < out@.len() ==> (#[trigger] out@[j]).built_from(
                        element_run::<T>(start, j as nat),
                    ),
                elements_after::<T>(start, at, count) == elements_after::<T>(
                    it.taker()@,
                    at,
                    it.remaining() as nat,
                ),
                elements_complete::<T>(start, count) == elements_complete::<T>(
                    it.taker()@,
                    it.remaining() as nat,
                ),
                *final(it.taker().lease()) == *final(old(u).lease()),
                *final(it.lease()) == after_borrow(*u),
            ensures
                it.remaining() == 0,
            decreases it.remaining(),
        {
            let ghost before = it.taker()@;
            let item = it.next();
            proof {
                lemma_follows_transitive(run, before, it.taker()@);
            }
            match item {
                None => {
                    break;
                },
                Some(Ok(v)) => {
                    out.push(v);
                },
                Some(Err(e)) => {
                    proof {
                        it.lemma_lease_ends();
                    }
                    return Err(e);
                },
            }
        }
        proof {
            it.lemma_lease_ends();
        }
        Ok(out)
    }
}

impl<T: Exhaustive> Exhaustive for VecDeque<T> {
    open spec fn run_after(run: Run) -> Run {
        repeated_after::<T>(run)
    }

    open spec fn completes(run: Run) -> bool {
        repeated_completes::<T>(run)
    }

    open spec fn built_from(&self, run: Run) -> bool {
        repeated_built::<T>(self@, run)
    }

    fn arbitrary(u: &mut DataSourceTaker) -> (r: Result<Self, ChoiceError>) {
        let items = Vec::<T>::arbitrary(u)?;
        let mut out: VecDeque<T> = VecDeque::new();
        for item in it: items
            invariant
                out@ == it.seq().take(it.index()),
        {
            out.push_back(item);
        }
        Ok(out)
    }
}

/// `TryFrom<Vec<T>>` of `[T; N]`: a vector of exactly `N` items becomes the
/// array of those items in their order, and any other vector is refused.
#[verifier::external_body]
fn into_array<T, const N: usize>(items: Vec<T>) -> (out: Option<[T; N]>)
    ensures
        out is Some <==> items@.len() == N,
        out matches Some(array) ==> array@ == items@,
{
    items.try_into().ok()
}

impl<T: Exhaustive, const N: usize> Exhaustive for [T; N] {
    open spec fn run_after(run: Run) -> Run {
        sequence_after::<T>(run, N as nat)
    }

    open spec fn completes(run: Run) -> bool {
        elements_complete::<T>(run, N as nat)
    }

    open spec fn built_from(&self, run: Run) -> bool {
        forall|i: int|
            0 <= i < N ==> (#[trigger] self@[i]).built_from(element_run::<T>(run, i as nat))
    }

    fn arbitrary(u: &mut DataSourceTaker) -> (r: Result<Self, ChoiceError>) {
        let ghost run = u@;
        let mut items: Vec<T> = Vec::new();
        let mut i: usize = 0;
        while i < N
            invariant
                i <= N,
                items@.len() == i,
                run == old(u)@,
                run.follows(u@),
                u@ == element_run::<T>(run, i as nat),
                forall|j: int|
                    0 <= j < i ==> (#[trigger] items@[j]).built_from(
                        element_run::<T>(run, j as nat),
                    ),
                sequence_after::<T>(run, N as nat) == sequence_after::<T>(u@, (N - i) as nat),
                elements_complete::<T>(run, N as nat) == elements_complete::<T>(
                    u@,
                    (N - i) as nat,
                ),
                *final(u.lease()) == *final(old(u).lease()),
            decreases N - i,
        {
            let ghost before = u@;
            let item = T::arbitrary(u);
            proof {
                lemma_follows_transitive(run, before, u@);
            }
            match item {
                Ok(v) => {
                    items.push(v);
                },
                Err(e) => {
                    return Err(e);
                },
            }
            i += 1;
        }
        let out = into_array::<T, N>(items);
        Ok(out.unwrap())
    }
}

} // verus!
