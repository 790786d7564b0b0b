use procfs::Current;
use aperf::data::common::utils::{
    graph_dest_file_name,
    combine_value_ranges, get_aggregate_series_name, get_cpu_series_name, parse_cpu_list,
    proc_stat_line_cpu_id, topological_sort, CpuInfo, CpuListError,
};

fn strings(v: &[&str]) -> Vec<String> {
    v.iter().map(|&s| s.to_string()).collect()
}

#[test]
fn test_proc_stat_line_cpu_id() {
    assert_eq!(proc_stat_line_cpu_id("cpu0 1 2 3"), Some(0));
    assert_eq!(proc_stat_line_cpu_id("cpu12 1 2 3"), Some(12));
    assert_eq!(proc_stat_line_cpu_id("cpu  1 2 3"), None);
    assert_eq!(proc_stat_line_cpu_id("intr 1 2 3"), None);
    assert_eq!(proc_stat_line_cpu_id("cpuX 1 2"), None);
    assert_eq!(proc_stat_line_cpu_id(""), None);
}

#[test]
fn test_parse_cpu_list() {
    let mut expected = vec![1, 5, 12, 16, 17, 18, 19];
    expected.extend(41..=55);
    assert_eq!(parse_cpu_list("12,5,41-55,16-19,1").unwrap(), expected);
    assert_eq!(parse_cpu_list(" 3 , 1-3 ,\t3, 2 ").unwrap(), vec![1, 2, 3]);
    assert_eq!(parse_cpu_list("7").unwrap(), vec![7]);
    assert_eq!(parse_cpu_list("4-4").unwrap(), vec![4]);
    assert!(parse_cpu_list("").unwrap().is_empty());
    assert!(parse_cpu_list("  ").unwrap().is_empty());
    assert!(parse_cpu_list("5-3").is_err());
    assert!(parse_cpu_list("1,a").is_err());
    assert!(parse_cpu_list("-1").is_err());
    assert!(parse_cpu_list("1-").is_err());
    assert!(parse_cpu_list("1-1234567890").is_err());
}

#[test]
fn test_cpu_info() {
    let proc_cpuinfo = procfs::CpuInfo::current().expect("Should read and parse /proc/cpuinfo");
    let first = proc_cpuinfo.get_info(0).expect("Should read and parse /proc/cpuinfo");
    let mut text = String::new();
    for (key, value) in first {
        text.push_str(&format!("{key}\t: {value}\n"));
    }
    let cpu_info = CpuInfo::from_cpuinfo_text(&text);
    assert!(
        cpu_info.is_arm() || cpu_info.is_intel() || cpu_info.is_amd(),
        "The CPU should be recognized as one of ARM, Intel, and AMD"
    );
}

#[test]
fn utils_test_topological_sort_fixed_result() {
    let inputs_raw: Vec<Vec<String>> = vec![
        strings(&["a", "b", "d", "g", "i", "j"]),
        strings(&["b", "c", "d", "f", "h", "i"]),
        strings(&["a", "d", "e", "g", "h", "j", "k"]),
        strings(&["c", "e", "f"]),
        strings(&["f", "g"]),
    ];
    let mut inputs: Vec<&Vec<String>> = Vec::new();
    for input_raw in &inputs_raw {
        inputs.push(input_raw);
    }
    if let Ok(output) = topological_sort(&inputs) {
        assert_eq!(output, vec!["a", "b", "c", "d", "e", "f", "g", "h", "i", "j", "k"]);
    } else {
        panic!("Conflicting orders in inputs");
    }
    if let Ok(output) = aperf::data::utils::topological_sort(&inputs) {
        assert_eq!(output, vec!["a", "b", "c", "d", "e", "f", "g", "h", "i", "j", "k"]);
    } else {
        panic!("Conflicting orders in inputs");
    }
}

#[test]
fn utils_test_topological_sort_multiple_result() {
    let inputs_raw: Vec<Vec<String>> = vec![
        strings(&["apple", "orange", "pear"]),
        strings(&["watermelon", "grape"]),
        strings(&["orange", "grape", "peach", "avocado", "pear", "dragonfruit"]),
        strings(&["apple", "peach", "pear"]),
        strings(&["strawberry", "apple"]),
        strings(&["apple", "watermelon"]),
    ];
    let mut inputs: Vec<&Vec<String>> = Vec::new();
    for input_raw in &inputs_raw {
        inputs.push(input_raw);
    }
    let possible_outputs: Vec<Vec<String>> = vec![
        strings(&[
            "strawberry", "apple", "orange", "watermelon", "grape", "peach", "avocado", "pear",
            "dragonfruit",
        ]),
        strings(&[
            "strawberry", "apple", "watermelon", "orange", "grape", "peach", "avocado", "pear",
            "dragonfruit",
        ]),
    ];
    if let Ok(output) = topological_sort(&inputs) {
        assert!(
            possible_outputs.iter().any(|expected| expected == &output),
            "Expected {:?} to be one of {:?}",
            output,
            possible_outputs,
        )
    } else {
        panic!("Conflicting orders in inputs");
    }
}

#[test]
fn utils_test_topological_sort_circular_dependency() {
    let inputs_raw: Vec<Vec<String>> = vec![
        strings(&["IAD", "PDX", "DUB", "NRT", "SYD", "FRA"]),
        strings(&["HKG", "DUB", "CMH", "KUL"]),
        strings(&["BOM", "CMH", "PDX"]),
        strings(&["SIN", "FRA"]),
        strings(&["ZAZ"]),
    ];
    let mut inputs: Vec<&Vec<String>> = Vec::new();
    for input_raw in &inputs_raw {
        inputs.push(input_raw);
    }
    if let Ok(output) = topological_sort(&inputs) {
        panic!("Expected conflicting orders in inputs, but got output {:?}", output);
    }
    assert!(aperf::data::utils::topological_sort(&inputs).is_err());
}

#[test]
fn utils_test_combine_value_ranges() {
    let cases: Vec<(Vec<(u64, u64)>, (u64, u64))> = vec![
        (vec![], (0, 0)),
        (vec![(5, 10)], (5, 10)),
        (vec![(5, 10), (3, 8), (7, 15)], (3, 15)),
        (vec![(1, 5), (3, 7), (4, 6)], (1, 7)),
        (vec![(0, 5), (3, 7), (4, 6)], (0, 7)),
        (vec![(5, u64::MAX), (3, 7), (4, 6)], (3, u64::MAX)),
        (vec![(5, 10), (5, 15), (5, 8)], (5, 15)),
        (vec![(5, 10), (3, 10), (7, 10)], (3, 10)),
        (vec![(5, 5), (5, 5), (5, 5)], (5, 5)),
    ];
    for (ranges, expected) in cases {
        assert_eq!(combine_value_ranges(ranges.clone()), expected);
        assert_eq!(aperf::data::utils::combine_value_ranges(ranges), expected);
    }
}

#[test]
fn cpu_list_error_kinds() {
    assert_eq!(parse_cpu_list("5-3"), Err(CpuListError::InvalidRange));
    assert_eq!(parse_cpu_list("1,a"), Err(CpuListError::InvalidCpu));
    assert_eq!(parse_cpu_list("0-20000"), Err(CpuListError::InvalidRange));
}

#[test]
fn series_names() {
    assert_eq!(get_cpu_series_name(7), "CPU7");
    assert_eq!(get_aggregate_series_name(), "Aggregate");
    assert_eq!(aperf::data::utils::get_cpu_series_name(12), Some("CPU12".to_string()));
    assert_eq!(aperf::data::utils::get_aggregate_series_name(), Some("Aggregate".to_string()));
}

#[test]
fn cpu_info_from_text_first_processor() {
    let text = "processor\t: 0\nvendor_id\t: GenuineIntel\ncpu family\t: 6\nmodel\t\t: 143\nmodel name\t: Intel(R) Xeon(R) Platinum 8488C\nstepping\t: 8\n\nprocessor\t: 1\nvendor_id\t: Other\n";
    let info = CpuInfo::from_cpuinfo_text(text);
    assert_eq!(info.vendor_id.as_deref(), Some("GenuineIntel"));
    assert_eq!(info.family, Some(6));
    assert_eq!(info.model, Some(143));
    assert_eq!(info.stepping, Some(8));
    assert!(info.is_intel());
    assert!(info.is_intel_sapphire_rapids());
    assert!(!info.is_amd());
    assert!(!info.is_arm());
    let old = aperf::data::utils::get_cpu_info_from_text(text);
    assert_eq!(old.vendor, "GenuineIntel");
    assert_eq!(old.model_name, "Intel(R) Xeon(R) Platinum 8488C");
}

#[test]
fn graph_files_prefixed_by_run() {
    assert_eq!(graph_dest_file_name("flamegraph.svg", "run1"), "run1-flamegraph.svg");
    assert_eq!(graph_dest_file_name("run1-java-profile-7-cpu.html", "run1"), "run1-java-profile-7-cpu.html");
    assert_eq!(graph_dest_file_name("run10-x.svg", "run1"), "run1-run10-x.svg");
}

fn cpu(vendor: &str, part: Option<&str>, family: u32, model: u32, stepping: u32) -> CpuInfo {
    CpuInfo {
        part: part.map(|p| p.to_string()),
        vendor_id: Some(vendor.to_string()),
        model_name: None,
        family: Some(family),
        model: Some(model),
        stepping: Some(stepping),
    }
}

#[test]
fn cpu_models_by_family_and_model() {
    assert!(cpu("GenuineIntel", None, 6, 0x55, 4).is_intel_skylake());
    assert!(!cpu("GenuineIntel", None, 6, 0x55, 5).is_intel_skylake());
    assert!(cpu("GenuineIntel", None, 6, 0x55, 7).is_intel_cascade_lake());
    assert!(cpu("GenuineIntel", None, 6, 0x6A, 0).is_intel_icelake());
    assert!(cpu("GenuineIntel", None, 6, 0x6C, 0).is_intel_icelake());
    assert!(cpu("GenuineIntel", None, 6, 0xCF, 0).is_intel_emerald_rapids());
    assert!(cpu("GenuineIntel", None, 6, 0xAD, 0).is_intel_granite_rapids());
    assert!(cpu("GenuineIntel", None, 6, 0xAE, 0).is_intel_granite_rapids());
    assert!(cpu("AuthenticAMD", None, 0x19, 0x11, 0).is_amd_genoa());
    assert!(cpu("AuthenticAMD", None, 0x19, 0xA0, 0).is_amd_genoa());
    assert!(!cpu("AuthenticAMD", None, 0x19, 0x01, 0).is_amd_genoa());
    assert!(cpu("AuthenticAMD", None, 0x19, 0x01, 0).is_amd_milan());
    assert!(cpu("AuthenticAMD", None, 0x19, 0x30, 0).is_amd_milan());
    assert!(cpu("AuthenticAMD", None, 0x1A, 0x02, 0).is_amd_turin());
    assert!(cpu("AuthenticAMD", None, 0x17, 0x01, 0).is_amd_naples());
    assert!(cpu("AuthenticAMD", None, 0x17, 0x31, 0).is_amd_rome());
    assert!(!cpu("AuthenticAMD", None, 0x17, 0x55, 0).is_amd_rome());
    let graviton5 = cpu("ARM", Some("0xd84"), 0, 0, 0);
    assert!(graviton5.is_arm() && graviton5.is_graviton_5());
    assert!(!cpu("ARM", Some("0xd40"), 0, 0, 0).is_graviton_5());
}

#[test]
fn utils_test_topological_sort_repeated_item_is_a_cycle() {
    let a = vec!["x".to_string(), "x".to_string()];
    let inputs = vec![&a];
    assert!(topological_sort(&inputs).is_err());
    let b: Vec<String> = vec![];
    let inputs = vec![&b];
    assert_eq!(topological_sort(&inputs), Ok(vec![]));
}
