use aperf::data::aperf_runlog::{runlog_text_data, AperfRunlog};
use aperf::data::efa_stat::{avg_bytes_per_wr_metric_name, efa_port_counters_name, efa_work_request_of, EfaStat};
use aperf::data::ena_stat::{ena_metric_and_series, skip_interface, EnaStat};
use aperf::data::flamegraphs::{
    flamegraph_file_name, kernel_flamegraph_title, report_graph_path, reverse_flamegraph_file_name,
    svg_message, Flamegraph,
};
use aperf::data::hotline::{
    hotline_args, hotline_report_args, hotline_unmet_preconditions, hotline_values, report_configs, Hotline, HotlinePrecondition, HotlineRaw,
    HOTLINE_FILE_NAME,
};
use aperf::data::java_profile::{
    asprof_args, heatmap_file_name, jfr_file_name, jps_map_file_name, jvm_graph_title, legacy_flamegraph_file_name,
    profile_metric_names, profiler_data_file_name, sorted_unique, JavaProfile, JavaProfileRaw,
};
use aperf::data::perf_profile::{
    perf_inject_args, perf_profile_warnings, perf_record_args, perf_script_args, PerfProfileWarning, perf_profiler_data_path, raw_perf_on_cpu_profile_path, raw_perf_profile_file_name, PerfProfile,
    PerfProfileRaw,
};
use aperf::data::processes::{
    get_process_metric_value, include_processes_of_pids, parse_proc_stat_line, parse_processes_snapshot,
    process_pid_name, top_processes, update_cpu_times, ProcStatLineError, Processes,
};
use aperf::ProcessMetric;
use std::path::PathBuf;

fn strings(v: &[&str]) -> Vec<String> {
    v.iter().map(|&s| s.to_string()).collect()
}

#[test]
fn runlog_lines_trim_line_ends() {
    let _ = AperfRunlog::new();
    let text = runlog_text_data("first  \nsecond\r\n\nlast  ");
    assert_eq!(text.lines, strings(&["first", "second", "", "last  "]));
    assert!(runlog_text_data("").lines.is_empty());
    assert_eq!(runlog_text_data("a\n").lines, strings(&["a"]));
}

#[test]
fn process_metric_values_from_stat_fields() {
    let _ = Processes::new();
    let line = "1234 (my proc) S 1 2 3 4 5 6 7 8 9 10 11 12 13 14 15 16 17 18 19 20 21 22";
    let parsed = parse_proc_stat_line(line).unwrap().unwrap();
    assert_eq!(parsed.pid, 1234);
    assert_eq!(parsed.name, "my proc");
    assert_eq!(parsed.values.len(), 23);
    assert_eq!(parsed.values[0], "S");
    let v = &parsed.values;
    assert_eq!(get_process_metric_value(ProcessMetric::UserSpaceTime, v, 4096), Some(11));
    assert_eq!(get_process_metric_value(ProcessMetric::KernelSpaceTime, v, 4096), Some(12));
    assert_eq!(get_process_metric_value(ProcessMetric::NumberThreads, v, 4096), Some(17));
    assert_eq!(get_process_metric_value(ProcessMetric::VirtualMemorySize, v, 4096), Some(20));
    assert_eq!(get_process_metric_value(ProcessMetric::ResidentSetSize, v, 4096), Some(21));
    assert_eq!(get_process_metric_value(ProcessMetric::ResidentSetSizeBytes, v, 4096), Some(21 * 4096));
    assert_eq!(get_process_metric_value(ProcessMetric::ResidentSetSizeBytes, v, 0), None);
    assert_eq!(get_process_metric_value(ProcessMetric::NumberProcesses, v, 4096), None);
    let short = strings(&["S", "1"]);
    assert_eq!(get_process_metric_value(ProcessMetric::UserSpaceTime, &short, 4096), None);
}

#[test]
fn proc_stat_lines_skipped_or_refused() {
    assert!(parse_proc_stat_line("no parentheses here").unwrap().is_none());
    assert_eq!(parse_proc_stat_line("x1 (a) S 1").unwrap_err(), ProcStatLineError::InvalidPid);
    assert_eq!(process_pid_name(42, "bash"), "42_bash");
}

#[test]
fn ena_queue_counters_become_series() {
    let _ = EnaStat::new();
    assert_eq!(
        ena_metric_and_series("queue_3_tx_cnt", "eth0"),
        ("tx_cnt".to_string(), "eth0_queue_3".to_string())
    );
    assert_eq!(
        ena_metric_and_series("bw_in_allowance_exceeded", "eth0"),
        ("bw_in_allowance_exceeded".to_string(), "eth0".to_string())
    );
    assert_eq!(
        ena_metric_and_series("queue_x_tx_cnt", "eth0"),
        ("queue_x_tx_cnt".to_string(), "eth0".to_string())
    );
    assert_eq!(
        ena_metric_and_series("queue_1", "eth1"),
        ("queue_1".to_string(), "eth1".to_string())
    );
}

#[test]
fn ena_virtual_interfaces_skipped() {
    for name in ["lo", "docker0", "veth12", "br-abc", "virbr0"] {
        assert!(skip_interface(name), "{name}");
    }
    for name in ["eth0", "ens5", "lo0"] {
        assert!(!skip_interface(name), "{name}");
    }
}

#[test]
fn efa_work_request_counters() {
    let _ = EfaStat::new();
    assert_eq!(efa_work_request_of("send_wrs"), Some(("send".to_string(), false)));
    assert_eq!(efa_work_request_of("rdma_read_bytes"), Some(("rdma_read".to_string(), true)));
    assert_eq!(efa_work_request_of("tx_bytes"), None);
    assert_eq!(efa_work_request_of("recvwrs"), None);
    assert_eq!(efa_work_request_of("rx_drops"), None);
    assert_eq!(avg_bytes_per_wr_metric_name("send"), "avg_bytes_per_send_wr");
}

#[test]
fn flamegraph_names() {
    let fg = Flamegraph::new();
    assert_eq!(fg.compatible_filenames(), vec!["flamegraph"]);
    assert_eq!(flamegraph_file_name("run1"), "run1-flamegraph.svg");
    assert_eq!(reverse_flamegraph_file_name("run1"), "run1-reverse-flamegraph.svg");
    assert_eq!(report_graph_path("x.svg"), "data/js/x.svg");
    assert_eq!(kernel_flamegraph_title("perf"), "Kernel Profiling Flamegraph (perf)");
    assert_eq!(
        svg_message("oops"),
        "<svg version=\"1.1\" xmlns=\"http://www.w3.org/2000/svg\" width=\"100%\" height=\"100%\"><text x=\"0%\" y=\"1%\">oops</text></svg>"
    );
}

#[test]
fn perf_profile_paths() {
    let _ = PerfProfile::new();
    assert!(PerfProfileRaw::new().data.is_empty());
    assert_eq!(raw_perf_profile_file_name("cpu"), "raw_perf_cpu_profile");
    let dir = PathBuf::from("/tmp/run");
    assert_eq!(raw_perf_on_cpu_profile_path(&dir), PathBuf::from("/tmp/run/raw_perf_cpu_profile"));
    assert_eq!(perf_profiler_data_path(&dir), PathBuf::from("/tmp/run/perf_profiler_data.json"));
}

#[test]
fn hotline_reports_present() {
    assert_eq!(HOTLINE_FILE_NAME, "hotline_profile");
    let raw = HotlineRaw::new();
    assert_eq!(raw.pid, 0);
    assert!(!raw.launched);
    let configs = report_configs();
    assert_eq!(configs[0].table_id, "completion_node");
    assert_eq!(configs[4].filename, "hotline_bmiss_map.csv");
    let h = Hotline::from_report_files([true, false, true, false, true]);
    assert_eq!(h.generated_files, strings(&["completion_node", "issue_latency", "branch"]));
    assert!(Hotline::new().generated_files.is_empty());
    assert_eq!(h.get_calls(), strings(&["values"]));
    let all = hotline_values(&vec![h.clone(), Hotline::new(), h]);
    assert_eq!(all.len(), 6);
    assert_eq!(all[3], "completion_node");
}

#[test]
fn java_process_map() {
    let _ = JavaProfile::new();
    let mut raw = JavaProfileRaw::new();
    let added = raw.add_unknown_jvms(&strings(&["100", "200"]));
    assert_eq!(added, strings(&["100", "200"]));
    raw.update_from_jps("100 App\n300 Jps\n200 Other\n");
    assert_eq!(raw.pids(), strings(&["100", "200"]));
    assert_eq!(raw.get_jids("App"), strings(&["100"]));
    assert_eq!(raw.get_jids("200"), strings(&["200"]));
    assert!(raw.get_jids("nothing").is_empty());
    let again = raw.add_unknown_jvms(&strings(&["200", "400"]));
    assert_eq!(again, strings(&["400"]));
    assert_eq!(raw.get_jids("Unknown_JVM_400"), strings(&["400"]));
    assert!(raw.contains("400"));
    assert!(!raw.contains("500"));
}

#[test]
fn java_jvm_names_deduplicated() {
    let mut raw = JavaProfileRaw::new();
    raw.update_from_jps("1 App 2 App 3 Other 4 App");
    assert_eq!(raw.deduped_jvm_names(), strings(&["App", "App (1)", "Other", "App (2)"]));
}

#[test]
fn java_request_ids_sorted_unique() {
    assert_eq!(sorted_unique(strings(&["3", "1", "3", "2", "1"])), strings(&["1", "2", "3"]));
    assert!(sorted_unique(Vec::new()).is_empty());
}

#[test]
fn java_file_names() {
    assert_eq!(profile_metric_names(), vec!["cpu", "alloc", "wall"]);
    assert_eq!(jfr_file_name("r", "12"), "r-java-profile-12.jfr");
    assert_eq!(heatmap_file_name("r", "12", "cpu"), "r-java-profile-12-cpu.html");
    assert_eq!(legacy_flamegraph_file_name("r", "12"), "r-java-flamegraph-12.html");
    assert_eq!(profiler_data_file_name("r", "12"), "r-java-profile-12-profiler-data.json");
    assert_eq!(jps_map_file_name("r"), "r-jps-map.json");
    assert_eq!(jvm_graph_title("cpu", "App (1)"), "(cpu) JVM: App (1)");
}

fn stat_line(pid: u32, name: &str, utime: u64, stime: u64) -> String {
    format!("{} ({}) S 1 2 3 4 5 6 7 8 9 10 {} {} 13 14 15 16 17 18 19 20 21 22", pid, name, utime, stime)
}

#[test]
fn processes_snapshot_samples() {
    let data = format!("{}\nno parentheses\n{}\n9 (short) S 1", stat_line(7, "a", 3, 4), stat_line(8, "b c", 10, 0));
    let samples = parse_processes_snapshot(&data).unwrap();
    assert_eq!(samples.len(), 2);
    assert_eq!(samples[0].name, "7_a");
    assert_eq!((samples[0].utime, samples[0].stime), (3, 4));
    assert_eq!(samples[1].name, "8_b c");
    assert_eq!((samples[1].utime, samples[1].stime), (10, 0));
    assert_eq!(samples[1].values.len(), 23);
    assert_eq!(parse_processes_snapshot("x (a) S").unwrap_err(), ProcStatLineError::InvalidPid);
    assert!(parse_processes_snapshot("").unwrap().is_empty());
}

#[test]
fn processes_keep_largest_times_and_rank() {
    let mut times: Vec<(String, u64, u64)> = Vec::new();
    let first = parse_processes_snapshot(&format!("{}\n{}", stat_line(1, "a", 5, 5), stat_line(2, "b", 1, 1))).unwrap();
    update_cpu_times(&mut times, &first);
    let second =
        parse_processes_snapshot(&format!("{}\n{}\n{}", stat_line(2, "b", 20, 0), stat_line(1, "a", 4, 6), stat_line(3, "c", 6, 4)))
            .unwrap();
    update_cpu_times(&mut times, &second);
    assert_eq!(
        times,
        vec![("1_a".to_string(), 5, 6), ("2_b".to_string(), 20, 1), ("3_c".to_string(), 6, 4)]
    );
    assert_eq!(top_processes(&times, 16), strings(&["2_b", "1_a", "3_c"]));
    assert_eq!(top_processes(&times, 2), strings(&["2_b", "1_a"]));
    assert!(top_processes(&times, 0).is_empty());
    let tied = vec![("x".to_string(), 1, 1), ("y".to_string(), 2, 0)];
    assert_eq!(top_processes(&tied, 16), strings(&["x", "y"]));
}

#[test]
fn processes_of_own_pids_included() {
    let times = vec![("12_aperf".to_string(), 0, 0), ("3_c".to_string(), 9, 9), ("120_x".to_string(), 1, 1)];
    let mut selected = strings(&["3_c"]);
    include_processes_of_pids(&mut selected, &times, &vec![12, 3, 99, 12]);
    assert_eq!(selected, strings(&["3_c", "12_aperf"]));
    let mut none: Vec<String> = Vec::new();
    include_processes_of_pids(&mut none, &times, &vec![120]);
    assert_eq!(none, strings(&["120_x"]));
}

#[test]
fn efa_port_counter_names() {
    assert_eq!(efa_port_counters_name("efa_0", "1"), "efa_0/1");
}

#[test]
fn hotline_preconditions() {
    let all_met = hotline_unmet_preconditions(true, "root=/dev/sda kpti=off quiet", "0\n", " -1\n", true);
    assert!(all_met.is_empty());
    let none_met = hotline_unmet_preconditions(false, "quiet", "1", "2", false);
    assert_eq!(
        none_met,
        vec![
            HotlinePrecondition::RootPrivileges,
            HotlinePrecondition::KptiDisabled,
            HotlinePrecondition::KptrRestrictZero,
            HotlinePrecondition::PerfEventParanoidAll,
            HotlinePrecondition::KallsymsReadable,
        ]
    );
    // Unreadable values count as -1 (kptr_restrict) and 4 (perf_event_paranoid).
    assert_eq!(
        hotline_unmet_preconditions(true, "kpti=off", "x", "", true),
        vec![HotlinePrecondition::KptrRestrictZero, HotlinePrecondition::PerfEventParanoidAll]
    );
    assert!(hotline_unmet_preconditions(true, "kpti=off", "+0", "-1", true).is_empty());
    assert_eq!(
        hotline_unmet_preconditions(true, "kpti=off", "0", "-+1", true),
        vec![HotlinePrecondition::PerfEventParanoidAll]
    );
}

#[test]
fn java_profile_requests() {
    let mut raw = JavaProfileRaw::new();
    raw.add_unknown_jvms(&strings(&["100", "200", "500"]));
    let jps = "100 App\n300 Jps\n200 Other\n";
    raw.update_from_jps(jps);
    assert_eq!(raw.requested_jids("jps", jps), strings(&["100", "200", "500"]));
    assert_eq!(raw.requested_jids("Other,App,Missing", jps), strings(&["100", "200"]));
    assert_eq!(raw.requested_jids("200,200", jps), strings(&["200"]));
    assert!(raw.requested_jids("500", jps).is_empty());
    assert_eq!(
        raw.entries(),
        vec![
            ("100".to_string(), strings(&["App"])),
            ("200".to_string(), strings(&["Other"])),
            ("500".to_string(), strings(&["Unknown_JVM_500"])),
        ]
    );
    assert_eq!(
        asprof_args(30, "/tmp/run-java-profile-100.jfr", "100"),
        strings(&[
            "-d", "30", "-o", "jfr", "-e", "cpu", "--alloc", "2m", "--wall", "100ms", "--cstack", "vm", "-F",
            "vtable", "-f", "/tmp/run-java-profile-100.jfr", "100",
        ])
    );
}

#[test]
fn perf_profile_command() {
    assert_eq!(
        perf_record_args(99, "/data/perf.data", 11),
        strings(&[
            "record", "-a", "-q", "-g", "-k", "1", "-F", "99", "-e", "cpu-clock:pppH", "-o", "/data/perf.data",
            "--", "sleep", "11",
        ])
    );
    assert!(perf_profile_warnings(true, "2", "2").is_empty());
    assert_eq!(
        perf_profile_warnings(false, "2\n", "1\n"),
        vec![PerfProfileWarning::ParanoidAboveZero, PerfProfileWarning::KptrRestricted]
    );
    assert!(perf_profile_warnings(false, "-1", "0").is_empty());
    assert_eq!(perf_inject_args("in.data", "out.jit"), strings(&["inject", "-j", "-i", "in.data", "-o", "out.jit"]));
    assert_eq!(perf_script_args("out.jit"), strings(&["script", "-f", "-i", "out.jit"]));
    assert_eq!(perf_profile_warnings(false, "bad", "bad"), vec![PerfProfileWarning::ParanoidAboveZero]);
}

#[test]
fn hotline_arguments() {
    assert_eq!(
        hotline_args(1, 1000, 10, "/data"),
        strings(&[
            "hotline", "--wakeup_period", "1", "--hotline_frequency", "1000", "--timeout", "10", "--data_dir", "/data",
        ])
    );
    assert_eq!(hotline_report_args(5000, "/data"), strings(&["hotline", "--num_to_report", "5000", "--data_dir", "/data"]));
}
