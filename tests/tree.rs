use pardu::tree::{aggregate, checked_raw_sum, Entry};

fn dir(children: Vec<Entry>) -> Entry {
    Entry::Dir(children)
}

#[test]
fn files_only_directory_sums_exactly() {
    let e = dir(vec![
        Entry::File(100),
        dir(vec![Entry::File(20), Entry::File(3)]),
        Entry::File(4000),
    ]);
    assert_eq!(aggregate(&e), Ok(4123));
}

#[test]
fn sum_is_independent_of_worker_count() {
    let e = dir((0..200u64).map(|i| dir(vec![Entry::File(i), Entry::File(1)])).collect());
    let single = rayon::ThreadPoolBuilder::new().num_threads(1).build().unwrap();
    let many = rayon::ThreadPoolBuilder::new().num_threads(8).build().unwrap();
    let a = single.install(|| aggregate(&e));
    let b = many.install(|| aggregate(&e));
    assert_eq!(a, Ok(199 * 200 / 2 + 200));
    assert_eq!(a, b);
}

#[test]
fn unreadable_child_fails_directory() {
    let e = dir(vec![
        Entry::File(10),
        Entry::Failed("permission denied".to_string()),
        Entry::File(30),
    ]);
    assert_eq!(aggregate(&e), Err("permission denied".to_string()));
}

#[test]
fn failure_deep_in_tree_propagates() {
    let e = dir(vec![Entry::File(1), dir(vec![dir(vec![Entry::Failed("gone".to_string())])])]);
    assert_eq!(aggregate(&e), Err("gone".to_string()));
}

#[test]
fn first_failing_child_gives_the_cause() {
    let e = dir(vec![Entry::Failed("one".to_string()), Entry::Failed("two".to_string())]);
    assert_eq!(aggregate(&e), Err("one".to_string()));
}

#[test]
fn dangling_link_is_zero() {
    assert_eq!(aggregate(&Entry::Dangling), Ok(0));
    assert_eq!(aggregate(&dir(vec![Entry::Dangling, Entry::File(5)])), Ok(5));
}

#[test]
fn empty_directory_is_zero() {
    assert_eq!(aggregate(&dir(Vec::new())), Ok(0));
}

#[test]
fn aggregating_twice_is_identical() {
    let e = dir(vec![Entry::File(7), dir(vec![Entry::File(8)]), Entry::Dangling]);
    assert_eq!(aggregate(&e), aggregate(&e));
}

#[test]
fn raw_sum_overflow_detected() {
    let e = dir(vec![Entry::File(u64::MAX), Entry::File(1)]);
    assert_eq!(checked_raw_sum(&e), None);
    let f = dir(vec![Entry::File(u64::MAX - 1), Entry::Failed("x".to_string()), Entry::File(1)]);
    assert_eq!(checked_raw_sum(&f), Some(u64::MAX));
    assert_eq!(aggregate(&f), Err("x".to_string()));
}
