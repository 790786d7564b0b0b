use aperf::data::common::processed_data_accessor::{compute_time_diff_index, matched_metric_names};

#[test]
fn test_index_no_bounds() {
    assert_eq!(compute_time_diff_index(&[0, 10, 20, 30, 40], None, None), (0, 5));
}

#[test]
fn test_index_with_from() {
    assert_eq!(compute_time_diff_index(&[0, 10, 20, 30, 40], Some(15), None), (2, 5));
}

#[test]
fn test_index_with_to() {
    assert_eq!(compute_time_diff_index(&[0, 10, 20, 30, 40], None, Some(25)), (0, 3));
}

#[test]
fn test_index_with_both() {
    assert_eq!(compute_time_diff_index(&[0, 10, 20, 30, 40], Some(10), Some(30)), (1, 4));
}

#[test]
fn test_index_exact_match() {
    assert_eq!(compute_time_diff_index(&[0, 10, 20, 30, 40], Some(20), Some(20)), (2, 3));
}

#[test]
fn test_index_empty() {
    assert_eq!(compute_time_diff_index(&[], Some(5), Some(10)), (0, 0));
}

#[test]
fn test_index_from_beyond_end() {
    assert_eq!(compute_time_diff_index(&[0, 10, 20], Some(100), None), (3, 3));
}

#[test]
fn test_index_to_before_start() {
    assert_eq!(compute_time_diff_index(&[10, 20, 30], None, Some(5)), (0, 0));
}

#[test]
fn test_index_from_equals_first_element() {
    assert_eq!(compute_time_diff_index(&[10, 20, 30], Some(10), None), (0, 3));
}

#[test]
fn test_index_to_equals_last_element() {
    assert_eq!(compute_time_diff_index(&[10, 20, 30], None, Some(30)), (0, 3));
}

#[test]
fn test_index_single_element_in_range() {
    assert_eq!(compute_time_diff_index(&[42], Some(40), Some(50)), (0, 1));
}

#[test]
fn test_index_single_element_out_of_range() {
    assert_eq!(compute_time_diff_index(&[42], Some(50), Some(60)), (1, 1));
}

#[test]
fn test_index_duplicate_values() {
    assert_eq!(compute_time_diff_index(&[10, 10, 20, 20, 30], Some(10), Some(20)), (0, 4));
}

#[test]
fn test_index_from_none_to_none() {
    assert_eq!(compute_time_diff_index(&[5, 10, 15], None, None), (0, 3));
}

#[test]
fn test_index_from_equals_to_not_in_array() {
    assert_eq!(compute_time_diff_index(&[10, 20, 30], Some(15), Some(15)), (1, 1));
}

#[test]
fn test_index_contiguous_range() {
    let td: Vec<u64> = (0..100).collect();
    assert_eq!(compute_time_diff_index(&td, Some(25), Some(74)), (25, 75));
}

#[test]
fn matched_metric_names_filters_in_order() {
    let names: Vec<String> = vec!["cpu_user".to_string(), "mem_free".to_string(), "cpu_sys".to_string()];
    assert_eq!(matched_metric_names(&names, "^cpu_"), vec!["cpu_user".to_string(), "cpu_sys".to_string()]);
}

#[test]
fn matched_metric_names_invalid_pattern_matches_nothing() {
    let names: Vec<String> = vec!["cpu_user".to_string()];
    assert!(matched_metric_names(&names, "(").is_empty());
}
