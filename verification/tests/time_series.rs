use aperf::data::common::time_series_data_processor::{
    aggregate_series_name, numeric_name_order, order_metric_names, TimeSeriesDataAggregateMode,
};

fn strings(v: &[&str]) -> Vec<String> {
    v.iter().map(|&s| s.to_string()).collect()
}

#[test]
fn aggregate_series_names_by_mode() {
    assert!(TimeSeriesDataAggregateMode::Average.is_auto_generated());
    assert!(TimeSeriesDataAggregateMode::Sum.is_auto_generated());
    assert!(!TimeSeriesDataAggregateMode::MaxSeries.is_auto_generated());
    assert!(!TimeSeriesDataAggregateMode::Custom.is_auto_generated());
    assert_eq!(aggregate_series_name(TimeSeriesDataAggregateMode::Average, None), "average");
    assert_eq!(aggregate_series_name(TimeSeriesDataAggregateMode::Sum, None), "sum");
    assert_eq!(aggregate_series_name(TimeSeriesDataAggregateMode::Sum, Some("total")), "total");
}

#[test]
fn metric_names_in_explicit_order() {
    let names = strings(&["zebra", "ipc", "alpha", "l2-mpki"]);
    let order = vec!["ipc", "branch-mpki", "l2-mpki"];
    assert_eq!(order_metric_names(&names, &order), strings(&["ipc", "l2-mpki", "zebra", "alpha"]));
}

#[test]
fn series_in_numeric_name_order() {
    let names = strings(&["cpu10", "cpu2", "cpu1", "aggregate", "agent-007", "agent-7"]);
    assert_eq!(numeric_name_order(&names), vec![4, 5, 3, 2, 1, 0]);
    assert!(numeric_name_order(&Vec::new()).is_empty());
    let files = strings(&["file-10", "file-3", "file-1"]);
    assert_eq!(numeric_name_order(&files), vec![2, 1, 0]);
}
