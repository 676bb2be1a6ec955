use hyprhist::types::SortedDistinctVec;

#[test]
fn iterates_in_sorted_unique_order_by_value() {
    let sorted = SortedDistinctVec::new(vec![3, 1, 2, 2, 1]);

    let collected: Vec<_> = sorted.into_iter().collect();

    assert_eq!(collected, vec![1, 2, 3]);
}

#[test]
fn iterates_by_reference() {
    let sorted = SortedDistinctVec::new(vec![
        "delta".to_string(),
        "alpha".to_string(),
        "beta".to_string(),
        "alpha".to_string(),
    ]);

    let collected: Vec<_> = (&sorted).into_iter().cloned().collect();

    assert_eq!(
        collected,
        vec!["alpha".to_string(), "beta".to_string(), "delta".to_string()]
    );
}

#[test]
fn sorted_distinct_get_of_empty_input_is_empty() {
    let sorted: SortedDistinctVec<i32> = SortedDistinctVec::new(Vec::new());

    assert!(sorted.get().is_empty());
}

#[test]
fn sorted_distinct_iter_yields_ascending_values() {
    let sorted = SortedDistinctVec::new(vec![5, 5, 4, 9, 4]);

    let collected: Vec<i32> = sorted.iter().copied().collect();

    assert_eq!(collected, vec![4, 5, 9]);
}
