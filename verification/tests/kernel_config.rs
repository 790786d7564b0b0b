use aperf::data::kernel_config::{
    headings_readable, read_kernel_config, Entry, KernelConfig, KernelConfigEntryGroup,
};

const SAMPLE: &str = "#
# Automatically generated file; DO NOT EDIT.
# Linux/x86 6.1 Kernel Configuration
#
CONFIG_CC_VERSION_TEXT=\"gcc (GCC) 11\"
CONFIG_CC_IS_GCC=y

#
# General setup
#
CONFIG_INIT_ENV_ARG_LIMIT=32
# CONFIG_COMPILE_TEST is not set

#
# Timers subsystem
#
CONFIG_TICK_ONESHOT=y
# end of Timers subsystem
CONFIG_BPF=y
# end of General setup
CONFIG_AFTER=1
";

fn options(g: &KernelConfigEntryGroup) -> Vec<(String, String)> {
    g.entries
        .iter()
        .filter_map(|e| match e {
            Entry::ConfigEntry(c) => Some((c.name.clone(), c.value.clone())),
            Entry::ConfigGroup(_) => None,
        })
        .collect()
}

fn pairs(v: &[(&str, &str)]) -> Vec<(String, String)> {
    v.iter().map(|(a, b)| (a.to_string(), b.to_string())).collect()
}

#[test]
fn kernel_config_test_collect_data() {
    let mut kernel_config = KernelConfig::new();
    assert!(kernel_config.kernel_config_data.is_empty());
    assert!(headings_readable(SAMPLE));
    kernel_config.collect_from_text(SAMPLE);
    assert!(!kernel_config.kernel_config_data.is_empty());
}

#[test]
fn kernel_config_groups_and_nesting() {
    let groups = read_kernel_config(SAMPLE);
    assert_eq!(groups.len(), 2);
    assert_eq!(groups[0].name, "");
    assert_eq!(
        options(&groups[0]),
        pairs(&[("CONFIG_CC_VERSION_TEXT", "\"gcc (GCC) 11\""), ("CONFIG_CC_IS_GCC", "y")])
    );
    assert_eq!(groups[1].name, "General setup");
    assert_eq!(
        options(&groups[1]),
        pairs(&[("CONFIG_INIT_ENV_ARG_LIMIT", "32"), ("CONFIG_COMPILE_TEST", "not set"), ("CONFIG_AFTER", "1")])
    );
    let nested: Vec<&KernelConfigEntryGroup> = groups[1]
        .entries
        .iter()
        .filter_map(|e| match e {
            Entry::ConfigGroup(g) => Some(g),
            Entry::ConfigEntry(_) => None,
        })
        .collect();
    assert_eq!(nested.len(), 1);
    assert_eq!(nested[0].name, "Timers subsystem");
    assert_eq!(options(nested[0]), pairs(&[("CONFIG_TICK_ONESHOT", "y"), ("CONFIG_BPF", "y")]));
}

#[test]
fn kernel_config_key_value_groups() {
    let mut kernel_config = KernelConfig::new();
    kernel_config.collect_from_text(SAMPLE);
    let kv = kernel_config.key_value_groups();
    let names: Vec<&str> = kv.iter().map(|(n, _)| n.as_str()).collect();
    assert_eq!(names, vec!["", "General setup:Timers subsystem", "General setup"]);
    assert_eq!(kv[1].1, pairs(&[("CONFIG_TICK_ONESHOT", "y"), ("CONFIG_BPF", "y")]));
    assert_eq!(kv[2].1.len(), 3);
}

#[test]
fn kernel_config_empty_and_missing() {
    let groups = read_kernel_config("");
    assert_eq!(groups.len(), 1);
    assert!(groups[0].entries.is_empty());
    let groups = read_kernel_config("KERNEL_CONFIG=NOT FOUND");
    assert_eq!(options(&groups[0]), pairs(&[("KERNEL_CONFIG", "NOT FOUND")]));
}

#[test]
fn kernel_config_unreadable_headings() {
    assert!(!headings_readable("x=1\n#\n#\n#\ny=2"));
    assert!(!headings_readable("#\n#\u{e9}\n#\ny=2"));
    assert!(headings_readable("#\n#\n#\n#\ny=2"));
    assert!(headings_readable("#\n#\n#"));
}
