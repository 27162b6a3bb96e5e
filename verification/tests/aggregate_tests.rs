use zentop::aggregate::{
    ccd_group_usages, core_view_group, filter_cores, nps_group_usages, numa_group_usages,
};
use zentop::detect::build_topology;
use zentop::fmt::decimal_string;
use zentop::stats::SystemStats;
use zentop::topology::{CpuCore, ZenTopology};

fn raw_core(id: usize, physical: usize, ccd: usize, numa: usize, package: usize) -> CpuCore {
    CpuCore {
        id,
        physical_id: physical,
        ccd_id: ccd,
        ccx_id: ccd,
        numa_node: numa,
        package_id: package,
        smt_sibling: None,
    }
}

/// 2 packages x 2 dies x 4 physical cores x 2 threads, ids 2p and 2p+1
/// paired as siblings.
fn dual_socket_topology() -> ZenTopology {
    let mut raw: Vec<CpuCore> = Vec::new();
    for p in 0..16 {
        for t in 0..2 {
            raw.push(raw_core(2 * p + t, p, p / 4, p / 8, p / 8));
        }
    }
    build_topology(&raw, 2)
}

fn flat_snapshot(n: usize) -> SystemStats {
    // Core i runs at i percent.
    let samples: Vec<(u32, u64)> = (0..n).map(|i| (100 * i as u32, 3000)).collect();
    SystemStats::from_samples(&samples, 0)
}

/// With SMT display off, the 32-thread dual-socket system shows exactly 16
/// entries in core view, each the lower-indexed member of its pair.
#[test]
fn core_view_hides_upper_siblings() {
    let t = dual_socket_topology();
    let stats = flat_snapshot(32);
    let shown = filter_cores(&t, false);
    assert_eq!(shown.len(), 16);
    for c in &shown {
        assert_eq!(c.id % 2, 0);
        assert_eq!(c.smt_sibling, Some(c.id + 1));
    }
    let g = core_view_group(&t, &stats, false, None);
    assert_eq!(g.core_count, 16);
    assert_eq!(g.name, "");
    for u in &g.member_usages {
        assert_eq!(u.core_id % 2, 0);
    }
    // With SMT display on, everything shows.
    assert_eq!(filter_cores(&t, true).len(), 32);
    assert_eq!(core_view_group(&t, &stats, true, None).core_count, 32);
}

/// The core view's socket filter keeps each CPU on its own package's half.
#[test]
fn core_view_socket_filter() {
    let t = dual_socket_topology();
    let stats = flat_snapshot(32);
    let left = core_view_group(&t, &stats, true, Some(0));
    let right = core_view_group(&t, &stats, true, Some(1));
    assert_eq!(left.core_count, 16);
    assert_eq!(right.core_count, 16);
    for u in &left.member_usages {
        assert!(u.core_id < 16);
    }
    for u in &right.member_usages {
        assert!(u.core_id >= 16);
    }
}

/// One aggregate per die, named after it, with exact statistics.
#[test]
fn ccd_groups_aggregate() {
    let t = dual_socket_topology();
    let stats = flat_snapshot(32);
    let groups = ccd_group_usages(&t, &stats, true, None);
    assert_eq!(groups.len(), 4);
    assert_eq!(groups[0].name, "CCD 0");
    assert_eq!(groups[0].id, 0);
    assert_eq!(groups[0].core_count, 8);
    // Die 0 holds cores 0..8 at 0, 100, ..., 700 hundredths: mean 350.
    assert_eq!(groups[0].mean_centi, 350);
    assert_eq!(groups[0].min_centi, 0);
    assert_eq!(groups[0].max_centi, 700);
    assert_eq!(groups[3].name, "CCD 3");
    assert_eq!(groups[3].min_centi, 2400);
    assert_eq!(groups[3].max_centi, 3100);
}

/// The socket filter keeps only the dies the socket owns.
#[test]
fn ccd_groups_socket_filter() {
    let t = dual_socket_topology();
    let stats = flat_snapshot(32);
    let left = ccd_group_usages(&t, &stats, true, Some(0));
    assert_eq!(left.len(), 2);
    assert_eq!(left[0].id, 0);
    assert_eq!(left[1].id, 1);
    let right = ccd_group_usages(&t, &stats, true, Some(1));
    assert_eq!(right.len(), 2);
    assert_eq!(right[0].id, 2);
}

/// SMT filtering applies inside each group.
#[test]
fn ccd_groups_smt_filter() {
    let t = dual_socket_topology();
    let stats = flat_snapshot(32);
    let groups = ccd_group_usages(&t, &stats, false, None);
    assert_eq!(groups[0].core_count, 4);
    for u in &groups[0].member_usages {
        assert_eq!(u.core_id % 2, 0);
    }
}

/// NUMA groups are named after their node and filter by the package of
/// their lowest member.
#[test]
fn numa_groups() {
    let t = dual_socket_topology();
    let stats = flat_snapshot(32);
    let groups = numa_group_usages(&t, &stats, true, None);
    assert_eq!(groups.len(), 2);
    assert_eq!(groups[0].name, "NUMA 0");
    assert_eq!(groups[1].name, "NUMA 1");
    assert_eq!(groups[0].core_count, 16);
    let right = numa_group_usages(&t, &stats, true, Some(1));
    assert_eq!(right.len(), 1);
    assert_eq!(right[0].id, 1);
}

/// NPS group names carry their NUMA node list.
#[test]
fn nps_groups_named_with_numa_list() {
    let t = dual_socket_topology();
    let stats = flat_snapshot(32);
    let groups = nps_group_usages(&t, &stats, true, None);
    assert_eq!(groups.len(), 2);
    assert_eq!(groups[0].name, "NPS 0 (NUMA: [0])");
    assert_eq!(groups[1].name, "NPS 1 (NUMA: [1])");
    assert_eq!(groups[0].core_count, 16);
}

/// Member ids beyond the snapshot are dropped from group aggregates.
#[test]
fn group_aggregation_drops_missing_samples() {
    let t = dual_socket_topology();
    let stats = flat_snapshot(8);
    let groups = ccd_group_usages(&t, &stats, true, None);
    assert_eq!(groups[0].core_count, 8);
    assert_eq!(groups[1].core_count, 0);
    assert_eq!(groups[1].mean_centi, 0);
}

/// The core view reads a missing sample as zero instead of dropping the
/// core.
#[test]
fn core_view_zero_fills_missing_samples() {
    let t = dual_socket_topology();
    let stats = flat_snapshot(8);
    let g = core_view_group(&t, &stats, true, None);
    assert_eq!(g.core_count, 32);
    assert_eq!(g.member_usages[31].usage_centi, 0);
    assert_eq!(g.member_usages[31].frequency_mhz, None);
}

#[test]
fn decimal_formatting() {
    assert_eq!(decimal_string(0), "0");
    assert_eq!(decimal_string(7), "7");
    assert_eq!(decimal_string(10), "10");
    assert_eq!(decimal_string(65535), "65535");
    assert_eq!(decimal_string(1000000), "1000000");
}
