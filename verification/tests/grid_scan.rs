use xword::parse_grid::{dedup_sequential, is_close};

#[test]
fn close_coordinates() {
    assert!(is_close(5, 8));
    assert!(is_close(8, 5));
    assert!(is_close(7, 7));
    assert!(!is_close(5, 9));
}

#[test]
fn runs_collapse_to_midpoints() {
    let values = vec![10, 11, 12, 20, 21, 30];
    assert_eq!(dedup_sequential(&values), vec![11, 20, 30]);
}

#[test]
fn single_value_is_its_own_run() {
    let values = vec![5];
    assert_eq!(dedup_sequential(&values), vec![5]);
}
