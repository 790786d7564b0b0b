use aperf::data::aperf_stats::{legacy_stat_key_names, AperfStats};
use aperf::data::systeminfo::{EC2Metadata, SystemInfo};
use aperf::data_collection::{
    collector_stat_name, preparation_order, CollectionAction, CollectionLoop, CollectorStage, EndSignal,
    PollEvent, SIGINT_SIGNO, SIGTERM_SIGNO,
};

#[test]
fn system_info_key_values() {
    let mut info = SystemInfo::new();
    assert_eq!(info.total_cpus, 0);
    assert!(info.instance_metadata.region.is_empty());
    assert_eq!(SystemInfo::compatible_filenames(), vec!["system_info"]);
    info.system_name = "Amazon Linux".to_string();
    info.total_cpus = 64;
    info.instance_metadata = EC2Metadata::not_available();
    let kv = info.key_values();
    assert_eq!(kv.len(), 10);
    assert_eq!(kv[0], ("System Name".to_string(), "Amazon Linux".to_string()));
    assert_eq!(kv[4], ("CPUs".to_string(), "64".to_string()));
    assert_eq!(kv[6], ("Region".to_string(), "N/A".to_string()));
    assert_eq!(kv[9].0, "Local Hostname");
    assert!(EC2Metadata::new().instance_id.is_empty());
}

#[test]
fn collector_stage_names() {
    assert_eq!(collector_stat_name("cpu_utilization", false, CollectorStage::Collect), "cpu_utilization-collect");
    assert_eq!(collector_stat_name("system_info", true, CollectorStage::Collect), "system_info-static_collect");
    assert_eq!(collector_stat_name("system_info", true, CollectorStage::Write), "system_info-static_write");
    assert_eq!(collector_stat_name("vmstat", false, CollectorStage::Write), "vmstat-write");
    assert_eq!(collector_stat_name("perf_profile", true, CollectorStage::Prepare), "perf_profile-prepare");
    assert_eq!(collector_stat_name("perf_profile", false, CollectorStage::Finish), "perf_profile-finish");
}

#[test]
fn collectors_prepared_profiles_last() {
    // (static, profile)
    let kinds = vec![(false, true), (true, false), (false, false), (false, true), (false, false)];
    assert_eq!(preparation_order(&kinds), vec![2, 4, 0, 3]);
    assert!(preparation_order(&vec![(true, true)]).is_empty());
}

#[test]
fn collection_loop_decisions() {
    let mut l = CollectionLoop::new(10);
    assert_eq!(l.end_time, 10_000_000_000);
    assert!(l.is_running());
    assert_eq!(l.on_event(PollEvent::Timer { expirations: 1 }), CollectionAction::Collect { missed: 0 });
    assert_eq!(l.on_event(PollEvent::Timer { expirations: 4 }), CollectionAction::Collect { missed: 3 });
    l.collected(10_000_000_000);
    assert!(l.is_running());
    l.collected(10_000_000_001);
    assert!(!l.is_running());
    assert_eq!(l.end_signal_name(), "");
    let mut s = CollectionLoop::new(60);
    assert_eq!(s.on_event(PollEvent::Signal { signo: SIGINT_SIGNO }), CollectionAction::Stop(EndSignal::Interrupt));
    assert!(!s.is_running());
    assert_eq!(s.end_signal_name(), "SIGINT");
    let mut t = CollectionLoop::new(60);
    t.on_event(PollEvent::Signal { signo: SIGTERM_SIGNO });
    assert_eq!(t.end_signal_name(), "SIGTERM");
    assert_eq!(EndSignal::Terminate.as_str(), "SIGTERM");
}

#[test]
fn aperf_stats_legacy_keys_and_order() {
    let s = |a: &str, b: &str| (a.to_string(), b.to_string());
    assert_eq!(legacy_stat_key_names("cpu_utilization-collect"), s("cpu_utilization", "collect"));
    assert_eq!(legacy_stat_key_names("hotline-print"), s("hotline", "write"));
    assert_eq!(legacy_stat_key_names("aperf"), s("aperf", "aperf"));
    assert_eq!(legacy_stat_key_names("a-b-c"), s("a", "b"));
    assert_eq!(legacy_stat_key_names(""), s("", ""));
    assert_eq!(AperfStats::compatible_filenames(), vec!["aperf_run_stats"]);
    let order = AperfStats::metric_name_order();
    assert_eq!(order.len(), 10);
    assert_eq!(order[0], "process_user_space_time");
    assert_eq!(order[6], "process_number_processes");
    assert_eq!(&order[7..], &["prepare".to_string(), "finish".to_string(), "aperf".to_string()]);
}
