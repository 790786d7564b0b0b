//! The formats of processed data shared by all data types: key-value data and text data,
//! and the identifier of each format. Time-series data, whose values are floating point,
//! are held by the application around the library.
use std::collections::HashMap;
use vstd::prelude::*;

verus! {

/// The identifier of a data format, which the report uses to recognize and parse the
/// processed data.
#[derive(Debug, Clone, Copy, PartialEq, Eq, Structural)]
pub enum DataFormat {
    TimeSeries,
    Text,
    KeyValue,
    Profile,
    Unknown,
}

pub open spec fn data_format_name(f: DataFormat) -> Seq<char> {
    match f {
        DataFormat::TimeSeries => "time_series"@,
        DataFormat::Text => "text"@,
        DataFormat::KeyValue => "key_value"@,
        DataFormat::Profile => "profile"@,
        DataFormat::Unknown => "unknown"@,
    }
}

impl DataFormat {
    /// The snake-case name of the format, as the report reads it.
    pub fn as_str(&self) -> (r: &'static str)
        ensures
            r@ == data_format_name(*self),
    {
        match self {
            DataFormat::TimeSeries => "time_series",
            DataFormat::Text => "text",
            DataFormat::KeyValue => "key_value",
            DataFormat::Profile => "profile",
            DataFormat::Unknown => "unknown",
        }
    }
}

/// Skipping the serialization of a flag that is false.
pub fn is_false(value: &bool) -> (r: bool)
    ensures
        r == !*value,
{
    !(*value)
}

/// Information collected once per run as key-value pairs, grouped by group name (all pairs
/// under the empty name when the data type is not grouped).
#[derive(Debug, Clone)]
pub struct KeyValueData {
    pub key_value_groups: HashMap<String, KeyValueGroup>,
}

/// All key-value pairs within a group.
#[derive(Debug, Clone)]
pub struct KeyValueGroup {
    pub key_values: HashMap<String, String>,
}

impl Default for KeyValueData {
    fn default() -> (r: Self)
        ensures
            r.key_value_groups@ == Map::<String, KeyValueGroup>::empty(),
    {
        KeyValueData { key_value_groups: HashMap::new() }
    }
}

impl Default for KeyValueGroup {
    fn default() -> (r: Self)
        ensures
            r.key_values@ == Map::<String, String>::empty(),
    {
        KeyValueGroup { key_values: HashMap::new() }
    }
}

/// Human-readable text, one string per line.
#[derive(Debug, Clone)]
pub struct TextData {
    pub lines: Vec<String>,
}

impl Default for TextData {
    fn default() -> (r: Self)
        ensures
            r.lines@.len() == 0,
    {
        TextData { lines: Vec::new() }
    }
}

} // verus!
