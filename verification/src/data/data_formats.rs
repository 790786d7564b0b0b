//! The formats of processed data of the report: key-value data, text data and graph data
//! (HTML or SVG files shown in the report), and the identifier of each format.
use std::collections::HashMap;
use vstd::prelude::*;

verus! {

/// The identifier of a data format, which the report uses to recognize and parse the
/// processed data.
#[derive(Debug, Clone, Copy, PartialEq, Eq, Structural)]
pub enum DataFormat {
    TimeSeries,
    Text,
    KeyValue,
    Graph,
    Unknown,
}

pub open spec fn data_format_name(f: DataFormat) -> Seq<char> {
    match f {
        DataFormat::TimeSeries => "time_series"@,
        DataFormat::Text => "text"@,
        DataFormat::KeyValue => "key_value"@,
        DataFormat::Graph => "graph"@,
        DataFormat::Unknown => "unknown"@,
    }
}

impl DataFormat {
    /// The snake-case name of the format, as the report reads it.
    pub fn as_str(&self) -> (r: &'static str)
        ensures
            r@ == data_format_name(*self),
    {
        match self {
            DataFormat::TimeSeries => "time_series",
            DataFormat::Text => "text",
            DataFormat::KeyValue => "key_value",
            DataFormat::Graph => "graph",
            DataFormat::Unknown => "unknown",
        }
    }
}

/// Skipping the serialization of a flag that is false.
pub fn is_false(value: &bool) -> (r: bool)
    ensures
        r == !*value,
{
    !(*value)
}

/// Information collected once per run as key-value pairs, grouped by group name (all pairs
/// under the empty name when the data type is not grouped).
#[derive(Debug, Clone)]
pub struct KeyValueData {
    pub key_value_groups: HashMap<String, KeyValueGroup>,
}

/// All key-value pairs within a group.
#[derive(Debug, Clone)]
pub struct KeyValueGroup {
    pub key_values: HashMap<String, String>,
}

impl Default for KeyValueData {
    fn default() -> (r: Self)
        ensures
            r.key_value_groups@ == Map::<String, KeyValueGroup>::empty(),
    {
        KeyValueData { key_value_groups: HashMap::new() }
    }
}

impl Default for KeyValueGroup {
    fn default() -> (r: Self)
        ensures
            r.key_values@ == Map::<String, String>::empty(),
    {
        KeyValueGroup { key_values: HashMap::new() }
    }
}

/// Graph files produced at the end of a run, in groups of which the report shows one at
/// a time.
#[derive(Debug, Clone)]
pub struct GraphData {
    pub graph_groups: Vec<GraphGroup>,
}

impl Default for GraphData {
    fn default() -> (r: Self)
        ensures
            r.graph_groups@.len() == 0,
    {
        GraphData { graph_groups: Vec::new() }
    }
}

/// The graphs shown together, by graph name.
#[derive(Debug, Clone)]
pub struct GraphGroup {
    pub group_name: String,
    pub graphs: HashMap<String, Graph>,
}

/// Information about a graph file.
#[derive(Debug, Clone)]
pub struct Graph {
    /// The name of the graph.
    pub graph_name: String,
    /// The path of the graph relative to the report.
    pub graph_path: String,
    /// The size of the graph, which can order the graphs in the report.
    pub graph_size: Option<u64>,
}

impl Graph {
    pub fn new(graph_name: String, graph_path: String, graph_size: Option<u64>) -> (r: Self)
        ensures
            r.graph_name@ == graph_name@,
            r.graph_path@ == graph_path@,
            r.graph_size == graph_size,
    {
        Graph { graph_name, graph_path, graph_size }
    }
}

/// Human-readable text, one string per line.
#[derive(Debug, Clone)]
pub struct TextData {
    pub lines: Vec<String>,
}

impl Default for TextData {
    fn default() -> (r: Self)
        ensures
            r.lines@.len() == 0,
    {
        TextData { lines: Vec::new() }
    }
}

} // verus!
