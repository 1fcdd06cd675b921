//! Constructions of the sets and maps of the standard library: a repeated
//! construction whose elements are put into the collection in the order in
//! which they were built.

use crate::construct::Exhaustive;
use crate::path::{ChoiceError, Run};
use crate::repeat::{lemma_take_whole, repeated_after, repeated_built, repeated_completes};
use crate::source::DataSourceTaker;
use std::collections::{BTreeMap, BTreeSet, HashMap, HashSet};
use std::hash::Hash;
use vstd::laws_cmp::obeys_cmp;
use vstd::prelude::*;
use vstd::std_specs::hash::obeys_key_model;

verus! {

/// The map that holds the pairs of `items`, a later pair taking the place of
/// an earlier one with the same key.
pub open spec fn map_of<K, V>(items: Seq<(K, V)>) -> Map<K, V>
    decreases items.len(),
{
    if items.len() == 0 {
        Map::empty()
    } else {
        map_of(items.drop_last()).insert(items.last().0, items.last().1)
    }
}

impl<T: Exhaustive + Ord> Exhaustive for BTreeSet<T> {
    open spec fn run_after(run: Run) -> Run {
        repeated_after::<T>(run)
    }

    open spec fn completes(run: Run) -> bool {
        repeated_completes::<T>(run)
    }

    /// Where the order of `T` is one that the set can rely on, the set
    /// holds the elements of a repeated construction from `run`.
    open spec fn built_from(&self, run: Run) -> bool {
        obeys_cmp::<T>() ==> exists|items: Seq<T>|
            #[trigger] repeated_built::<T>(items, run) && self@ == items.to_set()
    }

    fn arbitrary(u: &mut DataSourceTaker) -> (r: Result<Self, ChoiceError>) {
        let items = Vec::<T>::arbitrary(u)?;
        let ghost all = items@;
        let mut out: BTreeSet<T> = BTreeSet::new();
        for item in it: items
            invariant
                it.seq() == all,
                obeys_cmp::<T>() ==> out@ == all.take(it.index()).to_set(),
        {
            proof {
                let done = all.take(it.index());
                assert(all.take(it.index() + 1) == done.push(item));
                done.lemma_push_to_set_commute(item);
            }
            out.insert(item);
        }
        proof {
            lemma_take_whole(all);
        }
        Ok(out)
    }
}

impl<K: Exhaustive + Ord, V: Exhaustive> Exhaustive for BTreeMap<K, V> {
    open spec fn run_after(run: Run) -> Run {
        repeated_after::<(K, V)>(run)
    }

    open spec fn completes(run: Run) -> bool {
        repeated_completes::<(K, V)>(run)
    }

    /// Where the order of `K` is one that the map can rely on, the map
    /// holds the pairs of a repeated construction from `run`.
    open spec fn built_from(&self, run: Run) -> bool {
        obeys_cmp::<K>() ==> exists|items: Seq<(K, V)>|
            #[trigger] repeated_built::<(K, V)>(items, run) && self@ == map_of(items)
    }

    fn arbitrary(u: &mut DataSourceTaker) -> (r: Result<Self, ChoiceError>) {
        let items = Vec::<(K, V)>::arbitrary(u)?;
        let ghost all = items@;
        let mut out: BTreeMap<K, V> = BTreeMap::new();
        for item in it: items
            invariant
                it.seq() == all,
                obeys_cmp::<K>() ==> out@ == map_of(all.take(it.index())),
        {
            proof {
                let done = all.take(it.index());
                assert(all.take(it.index() + 1).drop_last() == done);
            }
            out.insert(item.0, item.1);
        }
        proof {
            lemma_take_whole(all);
        }
        Ok(out)
    }
}

impl<T: Exhaustive + Hash + Eq> Exhaustive for HashSet<T> {
    open spec fn run_after(run: Run) -> Run {
        repeated_after::<T>(run)
    }

    open spec fn completes(run: Run) -> bool {
        repeated_completes::<T>(run)
    }

    /// Where the hash and the equality of `T` are ones that the set can rely
    /// on, the set holds the elements of a repeated construction from `run`.
    open spec fn built_from(&self, run: Run) -> bool {
        obeys_key_model::<T>() ==> exists|items: Seq<T>|
            #[trigger] repeated_built::<T>(items, run) && self@ == items.to_set()
    }

    fn arbitrary(u: &mut DataSourceTaker) -> (r: Result<Self, ChoiceError>) {
        let items = Vec::<T>::arbitrary(u)?;
        let ghost all = items@;
        let mut out: HashSet<T> = HashSet::new();
        for item in it: items
            invariant
                it.seq() == all,
                obeys_key_model::<T>() ==> out@ == all.take(it.index()).to_set(),
        {
            proof {
                let done = all.take(it.index());
                assert(all.take(it.index() + 1) == done.push(item));
                done.lemma_push_to_set_commute(item);
            }
            out.insert(item);
        }
        proof {
            lemma_take_whole(all);
        }
        Ok(out)
    }
}

impl<K: Exhaustive + Hash + Eq, V: Exhaustive> Exhaustive for HashMap<K, V> {
    open spec fn run_after(run: Run) -> Run {
        repeated_after::<(K, V)>(run)
    }

    open spec fn completes(run: Run) -> bool {
        repeated_completes::<(K, V)>(run)
    }

    /// Where the hash and the equality of `K` are ones that the map can rely
    /// on, the map holds the pairs of a repeated construction from `run`.
    open spec fn built_from(&self, run: Run) -> bool {
        obeys_key_model::<K>() ==> exists|items: Seq<(K, V)>|
            #[trigger] repeated_built::<(K, V)>(items, run) && self@ == map_of(items)
    }

    fn arbitrary(u: &mut DataSourceTaker) -> (r: Result<Self, ChoiceError>) {
        let items = Vec::<(K, V)>::arbitrary(u)?;
        let ghost all = items@;
        let mut out: HashMap<K, V> = HashMap::new();
        for item in it: items
            invariant
                it.seq() == all,
                obeys_key_model::<K>() ==> out@ == map_of(all.take(it.index())),
        {
            proof {
                let done = all.take(it.index());
                assert(all.take(it.index() + 1).drop_last() == done);
            }
            out.insert(item.0, item.1);
        }
        proof {
            lemma_take_whole(all);
        }
        Ok(out)
    }
}

} // verus!
