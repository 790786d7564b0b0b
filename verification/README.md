# aperf

The logic of APerf, a performance recorder and reporter for Linux, as a library verified
with Verus: the parsers of the files it records (/proc/stat, /proc/meminfo,
/proc/interrupts, /proc/vmstat, /proc/diskstats, buddyinfo, pagetypeinfo, slabinfo, the
kernel build configuration, the stat lines of processes), the formats it writes and reads
back, the names and orders under which metrics and series are shown, and the decisions of
the recording (which processes and JVMs are profiled, the collection loop, the search for
the number of PMU registers).

Layout:

- `src/` — the verified library. `src/text.rs` holds the text primitives (splitting,
  words, lines, trimming, numbers) with their specifications; `src/data/` one module per
  kind of recorded data; `src/data/common/` what the kinds share (raw formats, orderings,
  CPU information, time-series naming); `src/data_processing.rs` the cross-run
  consolidation of reports; `src/data_collection.rs` the recording loop's decisions.
- `tests/` — tests of the library on concrete inputs.
- `app/` — the parts around the library: reading system files, running commands,
  the recording loop's system calls, JSON forms of the data, and the processing of
  floating-point values.
