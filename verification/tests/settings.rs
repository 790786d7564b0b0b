use aperf::data::common::utils::{
    cpu_ids_from_proc_stat, fd_limit_action, get_sub_process_duration_seconds, raise_fd_limit, FdLimitAction,
    FdLimitError,
};
use aperf::data::mem_settings::{group_and_key, MemSettings};
use aperf::data::numastat::{numastat_metric_order, Numastat};
use aperf::data::perf_stat::{
    parse_legacy_raw_pmu_stat, pmu_collected_data_fields, pmu_collected_data_prefix, required_fds, CounterLimitSearch,
    LegacyPmuStatError, PerfStat, PmuEventError, PmuEventString,
};
use aperf::data::sysctl::{can_collect, str_contains};
use aperf::data::vmstat::{is_level_vmstat_metric, parse_vmstat_line, Vmstat};

#[test]
fn vmstat_lines_and_kinds() {
    let _ = Vmstat::new();
    assert_eq!(parse_vmstat_line("nr_free_pages 12345"), Some(("nr_free_pages".to_string(), 12345)));
    assert_eq!(parse_vmstat_line("x -5"), Some(("x".to_string(), -5)));
    assert_eq!(
        parse_vmstat_line("y -9223372036854775808"),
        Some(("y".to_string(), i64::MIN))
    );
    assert_eq!(parse_vmstat_line("y 9223372036854775808"), None);
    assert_eq!(parse_vmstat_line("z -+1"), None);
    assert_eq!(parse_vmstat_line("lonely"), None);
    assert!(is_level_vmstat_metric("nr_free_pages"));
    assert!(!is_level_vmstat_metric("nr_dirtied"));
    assert!(!is_level_vmstat_metric("pgfault"));
}

#[test]
fn pmu_event_strings() {
    let _ = PerfStat::new();
    let e = PmuEventString::from_event_string("armv8_pmuv3_0/event=0x11, umask = 3 ,/").unwrap();
    assert_eq!(e.pmu_name, "armv8_pmuv3_0");
    assert_eq!(e.fields, vec![("event".to_string(), 0x11), ("umask".to_string(), 3)]);
    let e = PmuEventString::from_event_string("cpu/event=0xFF").unwrap();
    assert_eq!(e.fields, vec![("event".to_string(), 255)]);
    assert_eq!(PmuEventString::from_event_string("nopmu").unwrap_err(), PmuEventError::MissingSlash);
    assert_eq!(PmuEventString::from_event_string("cpu/event/").unwrap_err(), PmuEventError::InvalidField);
    assert_eq!(PmuEventString::from_event_string("cpu/event=0xZZ/").unwrap_err(), PmuEventError::InvalidValue);
    assert!(PmuEventString::from_event_string("cpu//").unwrap().fields.is_empty());
}

#[test]
fn mem_settings_groups() {
    let _ = MemSettings::new();
    assert_eq!(
        group_and_key("/sys/kernel/mm/transparent_hugepage/enabled"),
        ("THP".to_string(), "transparent_hugepage/enabled".to_string())
    );
    assert_eq!(
        group_and_key("/sys/kernel/mm/hugepages/hugepages-2048kB/nr_hugepages"),
        ("HugeTLB".to_string(), "hugepages/hugepages-2048kB/nr_hugepages".to_string())
    );
    assert_eq!(group_and_key("/sys/kernel/mm/ksm"), ("".to_string(), "ksm".to_string()));
    assert_eq!(group_and_key("/proc/x"), ("".to_string(), "/proc/x".to_string()));
}

#[test]
fn sysctl_filter() {
    assert!(can_collect("kernel.pid_max"));
    assert!(!can_collect("net.core.netdev_rss_key"));
    assert!(str_contains("abc", ""));
    assert!(!str_contains("ab", "abc"));
}

#[test]
fn numastat_order() {
    let _ = Numastat::new();
    assert_eq!(numastat_metric_order()[0], "numa_hit");
    assert_eq!(numastat_metric_order().len(), 6);
}

#[test]
fn fd_limits() {
    assert_eq!(fd_limit_action(10, 100, 200), FdLimitAction::Keep);
    assert_eq!(fd_limit_action(150, 100, 200), FdLimitAction::Raise(150));
    assert_eq!(fd_limit_action(200, 100, 200), FdLimitAction::Refuse);
    assert_eq!(raise_fd_limit(1), Ok(()));
    assert!(matches!(
        raise_fd_limit(u64::MAX),
        Ok(()) | Err(FdLimitError::TooManyRequired { required: u64::MAX, .. })
    ));
}

#[test]
fn online_cpus_from_proc_stat() {
    let ids = cpu_ids_from_proc_stat("cpu  1 2 3\ncpu3 1\ncpu0 1\ncpu12 5\nintr 7\n");
    assert_eq!(ids, vec![0, 3, 12]);
}

#[test]
fn legacy_pmu_stat_lines() {
    let ok = parse_legacy_raw_pmu_stat("3 ipc;100 200;50 50;1").unwrap();
    assert_eq!(ok, (3, "ipc".to_string(), 300, 100, 1));
    let e = |s: &str| parse_legacy_raw_pmu_stat(s).unwrap_err();
    assert_eq!(e(""), LegacyPmuStatError::MissingCpu);
    assert_eq!(e("x ipc;1;1;1"), LegacyPmuStatError::InvalidCpu);
    assert_eq!(e("3"), LegacyPmuStatError::MissingStatName);
    assert_eq!(e("3 ipc"), LegacyPmuStatError::MissingNumerators);
    assert_eq!(e("3 ipc;1 a;1;1"), LegacyPmuStatError::InvalidNumerator);
    assert_eq!(e("3 ipc;1"), LegacyPmuStatError::MissingDenominator);
    assert_eq!(e("3 ipc;1;b;1"), LegacyPmuStatError::InvalidDenominator);
    assert_eq!(e("3 ipc;1;1"), LegacyPmuStatError::MissingScale);
    assert_eq!(e("3 ipc;1;1; 1"), LegacyPmuStatError::InvalidScale);
    let big = parse_legacy_raw_pmu_stat("0 s;18446744073709551615 1 2;;7").unwrap();
    assert_eq!(big, (0, "s".to_string(), u64::MAX, 0, 7));
}

#[test]
fn pmu_collected_data_frames() {
    let prefix = pmu_collected_data_prefix(12, "ipc", &vec![5, 0, 77]);
    assert_eq!(prefix, "12;ipc;5;0;77;");
    let line = format!("{}{};{}", prefix, 1.5, 0.75);
    let f = pmu_collected_data_fields(&line).unwrap();
    assert_eq!((f.cpu_id, f.identifier.as_str()), (12, "ipc"));
    assert_eq!(f.counter_values, vec![5, 0, 77]);
    assert_eq!((f.time_enabled.as_str(), f.time_running.as_str()), ("1.5", "0.75"));
    assert!(pmu_collected_data_fields("1;a;2;3").is_none());
    assert!(pmu_collected_data_fields("x;a;1;2;3").is_none());
    assert!(pmu_collected_data_fields("1;a;q;2;3").is_none());
    assert_eq!(pmu_collected_data_fields("1;a;;2;3").is_none(), true);
}

fn probe_limit(registers: usize) -> (usize, Vec<usize>) {
    let mut search = CounterLimitSearch::new();
    let mut probes = Vec::new();
    while let Some(size) = search.next_probe() {
        probes.push(size);
        search.record(size, size <= registers);
    }
    (search.limit(), probes)
}

#[test]
fn pmu_counter_limit_binary_search() {
    assert_eq!(probe_limit(6), (6, vec![9, 5, 7, 6]));
    assert_eq!(probe_limit(20).0, 16);
    assert_eq!(probe_limit(16).0, 16);
    assert_eq!(probe_limit(0).0, 1);
    assert_eq!(probe_limit(1).0, 1);
    assert_eq!(required_fds(4, 10, 3), 102);
    assert_eq!(required_fds(0, 10, 3), 50);
}

#[test]
fn settings_test_sub_process_duration_seconds() {
    assert_eq!(get_sub_process_duration_seconds(0), 0);
    assert_eq!(get_sub_process_duration_seconds(1), 1);
    assert_eq!(get_sub_process_duration_seconds(999_999_999), 1);
    assert_eq!(get_sub_process_duration_seconds(5_000_000_000), 6);
    assert_eq!(get_sub_process_duration_seconds(5_500_000_000), 6);
}
