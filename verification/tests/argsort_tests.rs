use chess_engine::argsort;

#[test]
fn argsort_orders_indices_by_key() {
    let data = vec![30, -5, 20, 20, 7];
    assert_eq!(argsort(&data), vec![1, 4, 2, 3, 0]);
}

#[test]
fn argsort_is_stable_on_equal_keys() {
    let data = vec![1, 1, 0, 1];
    assert_eq!(argsort(&data), vec![2, 0, 1, 3]);
}

#[test]
fn argsort_handles_empty_and_single() {
    assert_eq!(argsort(&[]), Vec::<usize>::new());
    assert_eq!(argsort(&[42]), vec![0]);
}
