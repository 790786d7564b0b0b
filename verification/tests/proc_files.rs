use aperf::data::cpu_utilization::{get_cpu_time, CpuState, CpuUtilization, ProcKernelStat};
use aperf::data::diskstats::{get_device_disk_stat, DiskStatKey, DiskStatsError, Diskstats, ProcDiskStats};
use aperf::data::interrupts::{get_interrupt_metric_name, parse_raw_interrupt_data, InterruptData};
use aperf::data::memalloc::{
    buddyinfo_data_points, pagetypeinfo_data_points, slabinfo_data_points, sort_memalloc_metric_names,
    MemallocData,
};
use aperf::data::meminfo::{hugetlb_unused_memory_expression, parse_meminfo, MeminfoData};
use aperf::data::netstat::{parse_raw_netstat_data, Netstat, NetstatError};

fn strings(v: &[&str]) -> Vec<String> {
    v.iter().map(|&s| s.to_string()).collect()
}

#[test]
fn kernel_stat_cpu_lines() {
    let _ = CpuUtilization::new();
    let raw = "cpu  10 1 5 100 2 0 3 0 0 0\ncpu0 4 0 2 50 1 0 1 0 0 0\ncpu1 6 x 3 50 1 0 2 0 0 0\nintr 1 2 3 4 5 6 7 8 9\nctxt 5\n".to_string();
    let stat = ProcKernelStat::from_raw_data(&raw);
    assert_eq!(stat.total, vec![10, 1, 5, 100, 2, 0, 3, 0, 0, 0]);
    assert_eq!(stat.per_cpu.len(), 2);
    assert_eq!(stat.per_cpu[1], vec![6, 0, 3, 50, 1, 0, 2, 0, 0, 0]);
    assert_eq!(get_cpu_time(&CpuState::IDLE, &stat.total), 100);
    assert_eq!(get_cpu_time(&CpuState::STEAL, &vec![1, 2]), 0);
    assert_eq!(CpuState::SOFTIRQ.as_str(), "softirq");
    assert_eq!(CpuState::all().len(), 8);
}

#[test]
fn diskstats_line() {
    let _ = Diskstats::new();
    let d = ProcDiskStats::from_raw_data(" 259 0 nvme0n1 100 5 2000 30 40 6 800 12 0 50 70 0 0 0 0 1 2").unwrap();
    assert_eq!(d.device_name, "nvme0n1");
    assert_eq!(d.disk_stats.len(), 17);
    assert_eq!(get_device_disk_stat(DiskStatKey::Reads, &d.disk_stats), 100);
    assert_eq!(get_device_disk_stat(DiskStatKey::TimeFlushing, &d.disk_stats), 2);
    assert_eq!(get_device_disk_stat(DiskStatKey::TimeFlushing, &vec![1]), 0);
    assert_eq!(ProcDiskStats::from_raw_data("8 0 sda 1 2").unwrap_err(), DiskStatsError::TooFewFields);
    assert_eq!(DiskStatKey::WeightedTimeInProgress.as_str(), "weighted_time_in_progress");
}

#[test]
fn interrupts_table() {
    let _ = InterruptData::new();
    let raw = "           CPU0       CPU1\n  0:         36          0   IO-APIC   2-edge      timer\nNMI:          1          2   Non-maskable interrupts\nERR:          7\nMIS:          0\n".to_string();
    let interrupts = parse_raw_interrupt_data(&raw);
    assert_eq!(interrupts.len(), 4);
    assert_eq!(interrupts[0].interrupt_name, "0");
    assert_eq!(interrupts[0].per_cpu_values, vec![36, 0]);
    assert_eq!(interrupts[0].interrupt_info, "IO-APIC 2-edge timer");
    assert_eq!(get_interrupt_metric_name(&interrupts[0]), "(IO-APIC 2-edge timer)");
    assert_eq!(get_interrupt_metric_name(&interrupts[1]), "NMI (Non-maskable interrupts)");
    assert_eq!(interrupts[2].value, Some(7));
    assert!(interrupts[2].per_cpu_values.is_empty());
    assert_eq!(get_interrupt_metric_name(&interrupts[3]), "MIS");
    assert!(parse_raw_interrupt_data(&String::new()).is_empty());
}

#[test]
fn netstat_pairs() {
    let _ = Netstat::new();
    let raw = "TcpExt: SyncookiesSent SyncookiesRecv\nTcpExt: 1 2\nIpExt: InNoRoutes\nIpExt: 7\n".to_string();
    let counters = parse_raw_netstat_data(&raw).unwrap();
    assert_eq!(
        counters,
        vec![
            ("TcpExt:SyncookiesSent".to_string(), 1),
            ("TcpExt:SyncookiesRecv".to_string(), 2),
            ("IpExt:InNoRoutes".to_string(), 7)
        ]
    );
    assert_eq!(parse_raw_netstat_data(&"A: x y\nA: 1\n".to_string()), Err(NetstatError::ExcessiveName));
    assert_eq!(parse_raw_netstat_data(&"A: x\nA: 1 2\n".to_string()), Err(NetstatError::MissingName));
    assert_eq!(parse_raw_netstat_data(&"A: x\nA: q\n".to_string()), Err(NetstatError::InvalidValue));
    assert_eq!(parse_raw_netstat_data(&"\nA: 1\n".to_string()), Err(NetstatError::MissingPrefix));
}

#[test]
fn meminfo_values_in_bytes() {
    let _ = MeminfoData::new();
    let raw = "MemTotal:       16 kB\nHugePages_Total:  2\nBad: x\nMemTotal: 1 MB\nHugePages_Total_2048kB: 4\n";
    let entries: Vec<(String, u64)> = parse_meminfo(raw).into_iter().collect();
    assert_eq!(
        entries,
        vec![
            ("MemTotal".to_string(), 1024 * 1024),
            ("HugePages_Total".to_string(), 2),
            ("HugePages_Total_2048kB".to_string(), 4)
        ]
    );
    let names: Vec<String> = entries.into_iter().map(|(n, _)| n).collect();
    assert_eq!(
        hugetlb_unused_memory_expression(&names),
        "((HugePages_Free_2048kB - HugePages_Rsvd_2048kB) * 2097152) / MemTotal * 100"
    );
    assert_eq!(
        hugetlb_unused_memory_expression(&strings(&["MemTotal"])),
        "((HugePages_Free - HugePages_Rsvd) * Hugepagesize) / MemTotal * 100"
    );
}

#[test]
fn memalloc_points_and_names() {
    let _ = MemallocData::new();
    let buddy = buddyinfo_data_points("Node 0, zone   Normal   5  3  x\nshort line\n");
    assert_eq!(buddy.len(), 3);
    assert_eq!(buddy[1].metric_name, "buddyinfo_order_1");
    assert_eq!(buddy[1].series_name, "node_0_zone_Normal");
    assert_eq!(buddy[2].value, "x");
    let pt = pagetypeinfo_data_points("Node    0, zone      DMA, type    Unmovable      1      2\nNode 0, zone DMA32 10 20 30 40 50 60 70\n");
    assert_eq!(pt[0].metric_name, "pagetype_order_0_type_Unmovable");
    assert_eq!(pt[0].series_name, "node_0_zone_DMA");
    let blocks: Vec<_> = pt.iter().filter(|p| p.series_name == "zone_DMA32").collect();
    assert_eq!(blocks.len(), 6);
    assert_eq!(blocks[5].metric_name, "pageblocks_type_Isolate");
    assert_eq!(blocks[5].value, "60");
    let slab = slabinfo_data_points("slabinfo - version: 2.1\n# name <active_objs> ...\nkmalloc 1 2 3 4 5 : tunables 6 7 8 : slabdata 9 10 11\n");
    assert_eq!(slab.len(), 11);
    assert_eq!(slab[0].metric_name, "slabinfo_active_objs");
    assert_eq!(slab[0].series_name, "kmalloc");
    assert_eq!(slab[10].value, "11");
    assert_eq!(MemallocData::format_metric_name("buddyinfo_order_3"), "BuddyInfo order_3 (32KB)");
    assert_eq!(MemallocData::format_metric_name("buddyinfo_order_10"), "BuddyInfo order_10 (4MB)");
    assert_eq!(MemallocData::format_metric_name("pageblocks_type_CMA"), "PageBlocks - CMA");
    assert_eq!(
        MemallocData::format_metric_name("pagetype_order_9_type_Movable"),
        "PageType Movable - order_9 (2MB)"
    );
    assert_eq!(MemallocData::format_metric_name("slabinfo_active_objs"), "SlabInfo active objs");
    assert_eq!(MemallocData::format_metric_name("other"), "other");
}

#[test]
fn memalloc_metric_order() {
    let names = strings(&[
        "slabinfo_num_objs",
        "pageblocks_type_Movable",
        "pagetype_order_1_type_Movable",
        "buddyinfo_order_10",
        "pagetype_order_0_type_Movable",
        "buddyinfo_order_2",
        "pagetype_order_0_type_CMA",
        "slabinfo_active_objs",
    ]);
    assert_eq!(
        sort_memalloc_metric_names(names),
        strings(&[
            "buddyinfo_order_2",
            "buddyinfo_order_10",
            "pagetype_order_0_type_CMA",
            "pagetype_order_0_type_Movable",
            "pagetype_order_1_type_Movable",
            "slabinfo_active_objs",
            "slabinfo_num_objs",
            "pageblocks_type_Movable",
        ])
    );
    // Names placed alike (the same type and order) keep their order.
    let alike = strings(&["pagetype_order_01_type_Movable", "pagetype_order_0_type_Movable", "pagetype_order_1_type_Movable"]);
    assert_eq!(
        sort_memalloc_metric_names(alike),
        strings(&["pagetype_order_0_type_Movable", "pagetype_order_01_type_Movable", "pagetype_order_1_type_Movable"])
    );
}
