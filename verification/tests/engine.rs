use exhaustive::{ChoiceError, DataSource, DataSourceTaker, Enumerate, Exhaustive};

fn pair(run: &mut DataSourceTaker) -> Result<(usize, usize), ChoiceError> {
    let a = run.choice(2)?;
    let b = run.choice(3)?;
    Ok((a, b))
}

#[test]
fn first_run_starts_at_zero() {
    let mut source = DataSource::new(4);
    let mut run = source.next_run().unwrap();
    assert_eq!(run.choice(5).unwrap(), 0);
    assert_eq!(run.choice(2).unwrap(), 0);
    assert_eq!(run.choice(9).unwrap(), 0);
}

#[test]
fn runs_walk_the_tree_in_order() {
    let mut source = DataSource::new(2);
    let mut seen = Vec::new();
    while let Some(mut run) = source.next_run() {
        seen.push(pair(&mut run).unwrap());
    }
    assert_eq!(seen, vec![(0, 0), (0, 1), (0, 2), (1, 0), (1, 1), (1, 2)]);
}

#[test]
fn sibling_branches_may_differ_in_arity() {
    let mut source = DataSource::new(2);
    let mut seen = Vec::new();
    while let Some(mut run) = source.next_run() {
        let a = run.choice(2).unwrap();
        let b = if a == 0 { run.choice(2).unwrap() } else { run.choice(4).unwrap() };
        seen.push((a, b));
    }
    assert_eq!(seen, vec![(0, 0), (0, 1), (1, 0), (1, 1), (1, 2), (1, 3)]);
}

#[test]
fn a_run_without_choices_is_the_only_run() {
    let mut source = DataSource::new(3);
    assert!(source.next_run().is_some());
    assert!(source.next_run().is_none());
}

#[test]
fn choice_fails_when_the_budget_is_used_up() {
    let mut source = DataSource::new(2);
    let mut run = source.next_run().unwrap();
    assert!(run.choice(2).is_ok());
    assert!(run.choice(2).is_ok());
    assert!(matches!(run.choice(2), Err(ChoiceError)));
    assert!(matches!(run.choice(7), Err(ChoiceError)));
}

#[test]
fn choice_fails_at_once_with_budget_zero() {
    let mut source = DataSource::new(0);
    let mut run = source.next_run().unwrap();
    assert!(matches!(run.choice(2), Err(ChoiceError)));
}

#[test]
fn degenerate_choice_costs_nothing() {
    let mut source = DataSource::new(1);
    let mut run = source.next_run().unwrap();
    for _ in 0..10 {
        assert_eq!(run.choice(1).unwrap(), 0);
    }
    assert_eq!(run.choice(2).unwrap(), 0);
    assert!(run.choice(2).is_err());
    assert_eq!(run.choice(1).unwrap(), 0);
}

#[test]
fn degenerate_choice_with_budget_zero() {
    let mut source = DataSource::new(0);
    let mut run = source.next_run().unwrap();
    assert_eq!(run.choice(1).unwrap(), 0);
    assert!(run.choice(2).is_err());
    assert_eq!(run.choice(1).unwrap(), 0);
    assert!(source.next_run().is_none());
}

#[test]
fn degenerate_choice_leaves_no_position() {
    let mut source = DataSource::new(3);
    let mut seen = Vec::new();
    while let Some(mut run) = source.next_run() {
        let a = run.choice(1).unwrap();
        let b = run.choice(2).unwrap();
        let c = run.choice(1).unwrap();
        seen.push((a, b, c));
    }
    assert_eq!(seen, vec![(0, 0, 0), (0, 1, 0)]);
}

#[test]
fn exhaustion_is_final() {
    let mut source = DataSource::new(1);
    let mut count = 0;
    while let Some(mut run) = source.next_run() {
        run.choice(3).unwrap();
        count += 1;
    }
    assert_eq!(count, 3);
    for _ in 0..5 {
        assert!(source.next_run().is_none());
    }
}

#[test]
fn reset_replays_the_same_values() {
    let mut source = DataSource::new(3);
    let mut steps = 0;
    while let Some(mut run) = source.next_run() {
        let first = (run.choice(2).unwrap(), run.choice(3).unwrap(), run.choice(2).unwrap());
        run.reset(3);
        let second = (run.choice(2).unwrap(), run.choice(3).unwrap(), run.choice(2).unwrap());
        assert_eq!(first, second);
        run.reset(10);
        let third = (run.choice(2).unwrap(), run.choice(3).unwrap(), run.choice(2).unwrap());
        assert_eq!(first, third);
        steps += 1;
    }
    assert_eq!(steps, 12);
}

#[test]
fn reset_with_a_smaller_budget_replays_a_prefix() {
    let mut source = DataSource::new(2);
    let mut run = source.next_run().unwrap();
    pair(&mut run).unwrap();
    drop(run);
    let mut run = source.next_run().unwrap();
    assert_eq!(pair(&mut run).unwrap(), (0, 1));
    run.reset(1);
    assert_eq!(run.choice(2).unwrap(), 0);
    assert!(run.choice(3).is_err());
}

#[test]
fn reset_gives_a_fresh_budget() {
    let mut source = DataSource::new(1);
    let mut run = source.next_run().unwrap();
    assert!(run.choice(2).is_ok());
    assert!(run.choice(2).is_err());
    run.reset(2);
    assert_eq!(run.choice(2).unwrap(), 0);
    assert_eq!(run.choice(2).unwrap(), 0);
    assert!(run.choice(2).is_err());
}

#[test]
fn iter_of_offers_every_count_up_to_the_budget() {
    let mut source = DataSource::new(3);
    let mut lengths = Vec::new();
    while let Some(mut run) = source.next_run() {
        let mut it = run.iter_of::<()>().unwrap();
        let mut n = 0;
        while let Some(item) = it.next() {
            item.unwrap();
            n += 1;
        }
        lengths.push(n);
    }
    assert_eq!(lengths, vec![0, 1, 2, 3]);
}

#[test]
fn iter_of_with_budget_zero_is_empty() {
    let mut source = DataSource::new(0);
    let mut run = source.next_run().unwrap();
    let mut it = run.iter_of::<bool>().unwrap();
    assert!(it.next().is_none());
    assert!(it.next().is_none());
    drop(it);
    assert!(source.next_run().is_none());
}

#[test]
fn a_failed_element_lowers_the_count() {
    let mut source = DataSource::new(1);
    {
        let mut run = source.next_run().unwrap();
        let mut it = run.iter_of::<bool>().unwrap();
        assert!(it.next().is_none());
    }
    {
        let mut run = source.next_run().unwrap();
        let mut it = run.iter_of::<bool>().unwrap();
        assert!(matches!(it.next(), Some(Err(ChoiceError))));
    }
    assert!(source.next_run().is_none());
}

#[test]
fn the_count_is_not_lowered_while_elements_fit() {
    let mut source = DataSource::new(2);
    let mut seen = Vec::new();
    while let Some(mut run) = source.next_run() {
        seen.push(Vec::<bool>::arbitrary(&mut run).ok());
    }
    assert_eq!(
        seen,
        vec![
            Some(vec![]),
            Some(vec![false]),
            Some(vec![true]),
            None,
            None,
        ],
    );
}

#[test]
fn bool_with_any_budget() {
    for budget in [1, 2, 3, 100, usize::MAX] {
        assert_eq!(bool::iter_exhaustive(budget), vec![false, true]);
    }
}

#[test]
fn bool_with_budget_zero() {
    assert_eq!(bool::iter_exhaustive(0), Vec::<bool>::new());
}

#[test]
fn enumeration_is_the_same_every_time() {
    assert_eq!(Vec::<bool>::iter_exhaustive(5), Vec::<bool>::iter_exhaustive(5));
    assert_eq!(Vec::<bool>::iter_exhaustive(5).len(), 31);
}

#[test]
fn no_path_is_walked_twice() {
    let mut source = DataSource::new(3);
    let mut seen: Vec<Vec<usize>> = Vec::new();
    while let Some(mut run) = source.next_run() {
        let mut path = Vec::new();
        let n = run.choice(3).unwrap();
        path.push(n);
        for _ in 0..n {
            match run.choice(2) {
                Ok(v) => path.push(v),
                Err(ChoiceError) => break,
            }
        }
        assert!(!seen.contains(&path));
        seen.push(path);
    }
    assert_eq!(seen.len(), 1 + 2 + 4);
}

#[test]
fn no_value_is_built_twice() {
    let all = Vec::<bool>::iter_exhaustive(6);
    for (i, a) in all.iter().enumerate() {
        for b in &all[i + 1..] {
            assert_ne!(a, b);
        }
    }
}
