//! Flamegraphs of a run: the names of their files, and the SVG text that stands in for a
//! flamegraph that could not be made.
use crate::text::push_str;
use vstd::prelude::*;

verus! {

/// The raw data of flamegraphs, which hold their content in files of their own.
#[derive(Debug, Clone)]
pub struct FlamegraphRaw {
    pub data: String,
}

impl FlamegraphRaw {
    pub fn new() -> (r: Self)
        ensures
            r.data@ == Seq::<char>::empty(),
    {
        FlamegraphRaw { data: String::new() }
    }
}

/// The data type of flamegraphs.
#[derive(Debug, Clone)]
pub struct Flamegraph;

impl Flamegraph {
    pub fn new() -> Self {
        Flamegraph
    }

    /// The names under which raw flamegraph files are recognized.
    pub fn compatible_filenames(&self) -> (r: Vec<&'static str>)
        ensures
            r@.len() == 1,
            r@[0]@ == "flamegraph"@,
    {
        vec!["flamegraph"]
    }
}

pub open spec fn svg_message_prefix() -> Seq<char> {
    "<svg version=\"1.1\" xmlns=\"http://www.w3.org/2000/svg\" width=\"100%\" height=\"100%\"><text x=\"0%\" y=\"1%\">"@
}

pub open spec fn svg_message_suffix() -> Seq<char> {
    "</text></svg>"@
}

/// An SVG image that shows one line of text, written in place of a flamegraph that could
/// not be made.
pub fn svg_message(msg: &str) -> (r: String)
    ensures
        r@ == svg_message_prefix() + msg@ + svg_message_suffix(),
{
    let mut s = String::new();
    push_str(
        &mut s,
        "<svg version=\"1.1\" xmlns=\"http://www.w3.org/2000/svg\" width=\"100%\" height=\"100%\"><text x=\"0%\" y=\"1%\">",
    );
    push_str(&mut s, msg);
    push_str(&mut s, "</text></svg>");
    s
}

/// The flamegraph file of a run.
pub fn flamegraph_file_name(run_name: &str) -> (r: String)
    ensures
        r@ == run_name@ + "-flamegraph.svg"@,
{
    let mut s = String::new();
    push_str(&mut s, run_name);
    push_str(&mut s, "-flamegraph.svg");
    s
}

/// The reverse flamegraph file of a run.
pub fn reverse_flamegraph_file_name(run_name: &str) -> (r: String)
    ensures
        r@ == run_name@ + "-reverse-flamegraph.svg"@,
{
    let mut s = String::new();
    push_str(&mut s, run_name);
    push_str(&mut s, "-reverse-flamegraph.svg");
    s
}

/// The path of a graph file relative to the report: under "data/js".
pub fn report_graph_path(filename: &str) -> (r: String)
    ensures
        r@ == "data/js/"@ + filename@,
{
    let mut s = String::new();
    push_str(&mut s, "data/js/");
    push_str(&mut s, filename);
    s
}

/// The title of a kernel flamegraph of a profiler.
pub fn kernel_flamegraph_title(profiler_name: &str) -> (r: String)
    ensures
        r@ == "Kernel Profiling Flamegraph ("@ + profiler_name@ + ")"@,
{
    let mut s = String::new();
    push_str(&mut s, "Kernel Profiling Flamegraph (");
    push_str(&mut s, profiler_name);
    push_str(&mut s, ")");
    s
}

} // verus!
