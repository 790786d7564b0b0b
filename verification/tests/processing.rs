use aperf::data_processing::{
    aperf_process_metric_name, aperf_series_name, combined_value_ranges, cross_run_metric_names,
    first_appearance_names, put_metric_names_first,
};
use aperf::{
    data_file_name, data_file_path, data_name_from_full_type_path, no_tar_gz_file_name, register_sub_process_pid, select_matching_file,
    strip_tar_gz_suffix, FindFileError, ProcessMetric,
};
use std::path::PathBuf;

fn strings(v: &[&str]) -> Vec<String> {
    v.iter().map(|&s| s.to_string()).collect()
}

#[test]
fn cross_run_names_merge_orders() {
    let a = strings(&["a", "b", "d"]);
    let b = strings(&["b", "c", "d"]);
    assert_eq!(cross_run_metric_names(&vec![&a, &b]), strings(&["a", "b", "c", "d"]));
}

#[test]
fn cross_run_names_fall_back_to_first_appearance() {
    let a = strings(&["x", "y", "z"]);
    let b = strings(&["z", "w", "x"]);
    assert_eq!(cross_run_metric_names(&vec![&a, &b]), strings(&["x", "y", "z", "w"]));
    assert_eq!(first_appearance_names(&vec![&b, &a]), strings(&["z", "w", "x", "y"]));
}

#[test]
fn value_ranges_shared_across_runs() {
    let runs = vec![
        vec![("cpu".to_string(), (10u64, 20u64)), ("mem".to_string(), (5, 6))],
        vec![("cpu".to_string(), (2, 15))],
        vec![("disk".to_string(), (7, 7)), ("cpu".to_string(), (12, 40))],
    ];
    let combined = combined_value_ranges(&runs);
    assert_eq!(combined, vec![vec![(2, 40), (5, 6)], vec![(2, 40)], vec![(7, 7), (2, 40)]]);
}

#[test]
fn aperf_process_metrics_first() {
    assert_eq!(aperf_series_name(1234), "1234_aperf");
    assert_eq!(aperf_process_metric_name("user_space_time"), "process_user_space_time");
    let mut names = strings(&["a", "b"]);
    put_metric_names_first(&mut names, strings(&["p1", "p2"]));
    assert_eq!(names, strings(&["p1", "p2", "a", "b"]));
}

#[test]
fn process_metric_names() {
    assert_eq!(ProcessMetric::ResidentSetSizeBytes.as_str(), "resident_set_size_bytes");
    assert_eq!(ProcessMetric::UserSpaceTime.to_aperf_stat_metric_name(), "process_user_space_time");
    assert_eq!(ProcessMetric::all().len(), 7);
}

#[test]
fn data_names_and_files() {
    assert_eq!(
        data_name_from_full_type_path("aperf::data::cpu_utilization::CpuUtilization"),
        Some("cpu_utilization".to_string())
    );
    assert_eq!(data_name_from_full_type_path("aperf::other::X"), None);
    assert_eq!(data_name_from_full_type_path("aperf::data"), None);
    assert_eq!(data_file_name("vmstat"), "vmstat.bin");
    assert_eq!(strip_tar_gz_suffix("run1.tar.gz"), "run1");
    assert_eq!(strip_tar_gz_suffix("run1"), "run1");
    assert_eq!(no_tar_gz_file_name(&PathBuf::from("/a/b/run2.tar.gz")), Some("run2".to_string()));
    assert_eq!(no_tar_gz_file_name(&PathBuf::from("/")), None);
    assert_eq!(aperf::data::utils::no_tar_gz_file_name(&PathBuf::from("x/y")), Some("y".to_string()));
}

#[test]
fn select_matching_file_by_pattern() {
    let names = strings(&["reverse-flamegraph.svg", "flamegraph.svg", "noise.txt"]);
    assert_eq!(
        select_matching_file(&names, r"flamegraph\.svg$", Some(r"reverse-flamegraph\.svg$")),
        Ok("flamegraph.svg".to_string())
    );
    assert_eq!(
        select_matching_file(&names, r"reverse-flamegraph\.svg$", None),
        Ok("reverse-flamegraph.svg".to_string())
    );
    assert_eq!(select_matching_file(&names, "^missing", None), Err(FindFileError::NotFound));
    assert_eq!(select_matching_file(&names, "(", None), Err(FindFileError::InvalidPattern));
    assert_eq!(select_matching_file(&names, "x", Some("(")), Err(FindFileError::InvalidExcludePattern));
}

#[test]
fn sub_process_pids_recorded_once() {
    let mut pids = std::collections::HashSet::new();
    register_sub_process_pid(&mut pids, 10);
    register_sub_process_pid(&mut pids, 11);
    register_sub_process_pid(&mut pids, 10);
    assert_eq!(pids.len(), 2);
    assert!(pids.contains(&10) && pids.contains(&11));
}

#[test]
fn data_files_and_flags() {
    assert_eq!(data_file_path("vmstat", &PathBuf::from("/runs/r1")), PathBuf::from("/runs/r1/vmstat.bin"));
    assert!(aperf::data::common::data_formats::is_false(&false));
    assert!(!aperf::data::common::data_formats::is_false(&true));
    assert!(aperf::data::data_formats::is_false(&false));
}

#[test]
fn processing_test_no_tar_gz_file_name_utf8_names() {
    assert_eq!(aperf::data::utils::no_tar_gz_file_name(&PathBuf::from("/d/run1.tar.gz")), Some("run1".to_string()));
    assert_eq!(aperf::data::utils::no_tar_gz_file_name(&PathBuf::from("/d/run1")), Some("run1".to_string()));
    assert_eq!(aperf::data::utils::no_tar_gz_file_name(&PathBuf::from("/d/a.tar.gz.tar.gz")), Some("a.tar.gz".to_string()));
    assert_eq!(aperf::data::utils::no_tar_gz_file_name(&PathBuf::from("/")), None);
}
