pub mod aperf_runlog;
pub mod aperf_stats;
pub mod common;
pub mod cpu_utilization;
pub mod data_formats;
pub mod diskstats;
pub mod flamegraphs;
pub mod hotline;
pub mod interrupts;
pub mod java_profile;
pub mod kernel_config;
pub mod memalloc;
pub mod mem_settings;
pub mod meminfo;
pub mod netstat;
pub mod numastat;
pub mod perf_profile;
pub mod perf_stat;
pub mod efa_stat;
pub mod ena_stat;
pub mod processes;
pub mod sysctl;
pub mod systeminfo;
pub mod utils;
pub mod vmstat;
