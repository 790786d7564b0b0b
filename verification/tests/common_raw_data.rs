use aperf::data::common::common_raw_data::{parse_common_raw_entries, TimeSeriesDataBuilder};
use std::collections::HashMap;

/// The snapshot that the report reads from the common raw format: metric name to component
/// to value, keeping the entries whose value parses as a number (the last one wins).
fn parse_snapshot(raw_data: &str) -> HashMap<String, HashMap<String, f64>> {
    let mut parsed: HashMap<String, HashMap<String, f64>> = HashMap::new();
    for entry in parse_common_raw_entries(raw_data) {
        if let Ok(value) = entry.value.parse::<f64>() {
            parsed
                .entry(entry.metric_name)
                .or_default()
                .insert(entry.component_name, value);
        }
    }
    parsed
}

#[test]
fn test_builder_empty() {
    let builder = TimeSeriesDataBuilder::new();
    assert_eq!(builder.get_data(), "");
}

#[test]
fn test_builder_single_component_single_metric() {
    let mut builder = TimeSeriesDataBuilder::new();
    builder.add_component_line(&"eth0".to_string());
    builder.add_metric_line(&"tx_bytes".to_string(), &"1234".to_string());
    assert_eq!(builder.get_data(), "eth0:\ntx_bytes 1234\n");
}

#[test]
fn test_builder_multiple_components() {
    let mut builder = TimeSeriesDataBuilder::new();
    builder.add_component_line(&"eth0".to_string());
    builder.add_metric_line(&"tx_bytes".to_string(), &"100".to_string());
    builder.add_metric_line(&"rx_bytes".to_string(), &"200".to_string());
    builder.add_component_line(&"eth1".to_string());
    builder.add_metric_line(&"tx_bytes".to_string(), &"300".to_string());
    let data = builder.get_data();
    assert_eq!(data, "eth0:\ntx_bytes 100\nrx_bytes 200\neth1:\ntx_bytes 300\n");
}

#[test]
fn test_builder_trims_outer_whitespace() {
    let mut builder = TimeSeriesDataBuilder::new();
    builder.add_component_line(&"c".to_string());
    builder.add_metric_line(&"counter".to_string(), &"42".to_string());
    let data = builder.get_data();
    assert_eq!(data, "c:\ncounter 42\n");
}

#[test]
fn test_builder_metric_value_with_padding_preserves_internal_space() {
    let mut builder = TimeSeriesDataBuilder::new();
    builder.add_component_line(&"c".to_string());
    builder.add_metric_line(&"counter".to_string(), &"  42  ".to_string());
    let data = builder.get_data();
    assert!(data.contains("counter"), "got: {}", data);
    let parsed = parse_snapshot(&data);
    assert_eq!(parsed["counter"]["c"], 42.0);
}

#[test]
fn test_roundtrip_single_component() {
    let mut builder = TimeSeriesDataBuilder::new();
    builder.add_component_line(&"eth0".to_string());
    builder.add_metric_line(&"tx_bytes".to_string(), &"100".to_string());
    builder.add_metric_line(&"rx_bytes".to_string(), &"200".to_string());
    let parsed = parse_snapshot(&builder.get_data());
    assert_eq!(parsed.len(), 2);
    assert_eq!(parsed["tx_bytes"]["eth0"], 100.0);
    assert_eq!(parsed["rx_bytes"]["eth0"], 200.0);
}

#[test]
fn test_roundtrip_multiple_components_same_metrics() {
    let mut builder = TimeSeriesDataBuilder::new();
    builder.add_component_line(&"eth0".to_string());
    builder.add_metric_line(&"tx_bytes".to_string(), &"100".to_string());
    builder.add_metric_line(&"rx_bytes".to_string(), &"200".to_string());
    builder.add_component_line(&"eth1".to_string());
    builder.add_metric_line(&"tx_bytes".to_string(), &"300".to_string());
    builder.add_metric_line(&"rx_bytes".to_string(), &"400".to_string());
    let parsed = parse_snapshot(&builder.get_data());
    assert_eq!(parsed.len(), 2);
    assert_eq!(parsed["tx_bytes"].len(), 2);
    assert_eq!(parsed["tx_bytes"]["eth0"], 100.0);
    assert_eq!(parsed["tx_bytes"]["eth1"], 300.0);
    assert_eq!(parsed["rx_bytes"]["eth0"], 200.0);
    assert_eq!(parsed["rx_bytes"]["eth1"], 400.0);
}

#[test]
fn test_roundtrip_components_with_different_metrics() {
    let mut builder = TimeSeriesDataBuilder::new();
    builder.add_component_line(&"efa0".to_string());
    builder.add_metric_line(&"tx_bytes".to_string(), &"100".to_string());
    builder.add_component_line(&"efa1".to_string());
    builder.add_metric_line(&"rdma_write_bytes".to_string(), &"500".to_string());
    let parsed = parse_snapshot(&builder.get_data());
    assert_eq!(parsed.len(), 2);
    assert_eq!(parsed["tx_bytes"].len(), 1);
    assert_eq!(parsed["tx_bytes"]["efa0"], 100.0);
    assert_eq!(parsed["rdma_write_bytes"].len(), 1);
    assert_eq!(parsed["rdma_write_bytes"]["efa1"], 500.0);
}

#[test]
fn test_parse_empty_string() {
    let parsed = parse_snapshot("");
    assert!(parsed.is_empty());
}

#[test]
fn test_parse_non_numeric_value_skipped() {
    let raw = "comp:\nmetric_a 100\nmetric_b not_a_number\nmetric_c 300\n".to_string();
    let parsed = parse_snapshot(&raw);
    assert_eq!(parsed.len(), 2);
    assert!(parsed.contains_key("metric_a"));
    assert!(!parsed.contains_key("metric_b"));
    assert!(parsed.contains_key("metric_c"));
}

#[test]
fn test_parse_floating_point_values() {
    let raw = "comp:\nmetric 1.23\n".to_string();
    let parsed = parse_snapshot(&raw);
    assert!((parsed["metric"]["comp"] - 1.23).abs() < f64::EPSILON);
}

#[test]
fn test_parse_negative_values() {
    let raw = "comp:\nmetric -42\n".to_string();
    let parsed = parse_snapshot(&raw);
    assert_eq!(parsed["metric"]["comp"], -42.0);
}

#[test]
fn test_parse_metric_before_any_component() {
    let raw = "orphan_metric 999\ncomp:\nreal_metric 100\n".to_string();
    let parsed = parse_snapshot(&raw);
    assert_eq!(parsed["orphan_metric"][""], 999.0);
    assert_eq!(parsed["real_metric"]["comp"], 100.0);
}

#[test]
fn test_parse_blank_lines_ignored() {
    let raw = "comp:\n\nmetric 100\n\n".to_string();
    let parsed = parse_snapshot(&raw);
    assert_eq!(parsed.len(), 1);
    assert_eq!(parsed["metric"]["comp"], 100.0);
}

#[test]
fn test_parse_component_with_no_metrics() {
    let raw = "empty_comp:\nnext_comp:\nmetric 42\n".to_string();
    let parsed = parse_snapshot(&raw);
    assert_eq!(parsed.len(), 1);
    assert_eq!(parsed["metric"]["next_comp"], 42.0);
}

#[test]
fn test_parse_same_metric_same_component_last_wins() {
    let raw = "comp:\nmetric 100\nmetric 200\n".to_string();
    let parsed = parse_snapshot(&raw);
    assert_eq!(parsed["metric"]["comp"], 200.0);
}

#[test]
fn test_parse_component_name_with_slash() {
    let raw = "efa0/1:\ntx_bytes 500\n".to_string();
    let parsed = parse_snapshot(&raw);
    assert_eq!(parsed["tx_bytes"]["efa0/1"], 500.0);
}

#[test]
fn test_parse_extra_whitespace_in_metric_line() {
    let raw = "comp:\n  metric   100  \n".to_string();
    let parsed = parse_snapshot(&raw);
    assert_eq!(parsed["metric"]["comp"], 100.0);
}

#[test]
fn test_parse_large_values() {
    let raw = "comp:\nbig 18446744073709551615\n".to_string();
    let parsed = parse_snapshot(&raw);
    assert!(parsed["big"]["comp"] > 1e18);
}

#[test]
fn test_parse_many_components_many_metrics() {
    let mut builder = TimeSeriesDataBuilder::new();
    for c in 0..50 {
        builder.add_component_line(&format!("comp_{}", c));
        for m in 0..20 {
            builder.add_metric_line(&format!("metric_{}", m), &format!("{}", c * 1000 + m));
        }
    }
    let parsed = parse_snapshot(&builder.get_data());
    assert_eq!(parsed.len(), 20);
    for m in 0..20 {
        let metric = &parsed[&format!("metric_{}", m)];
        assert_eq!(metric.len(), 50);
        for c in 0..50 {
            assert_eq!(metric[&format!("comp_{}", c)], (c * 1000 + m) as f64);
        }
    }
}

#[test]
fn raw_entries_keep_order_and_text() {
    let entries = parse_common_raw_entries("a:\nx 1\ny two\nb:\nx 3 extra\nlonely\n");
    let got: Vec<(String, String, String)> = entries
        .into_iter()
        .map(|e| (e.metric_name, e.component_name, e.value))
        .collect();
    assert_eq!(
        got,
        vec![
            ("x".to_string(), "a".to_string(), "1".to_string()),
            ("y".to_string(), "a".to_string(), "two".to_string()),
            ("x".to_string(), "b".to_string(), "3".to_string()),
        ]
    );
}

#[test]
fn raw_entries_crlf_lines() {
    let entries = parse_common_raw_entries("c:\r\nm 5\r\n");
    assert_eq!(entries.len(), 1);
    assert_eq!(entries[0].component_name, "c");
    assert_eq!(entries[0].value, "5");
}
