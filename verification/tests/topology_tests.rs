use zentop::detect::{build_nps_nodes, build_topology, detect_nps_mode};
use zentop::hwtree::{detect_topology, HwObject, HwObjectType, HwTree};
use zentop::topology::{CpuCore, NpsMode, NumaNode, ZenGeneration};

fn raw_core(id: usize, physical: usize, ccd: usize, numa: usize, package: usize) -> CpuCore {
    CpuCore {
        id,
        physical_id: physical,
        ccd_id: ccd,
        ccx_id: ccd,
        numa_node: numa,
        package_id: package,
        smt_sibling: None,
    }
}

/// A single-package, single-NUMA-node, 8-CPU system without SMT: mode NPS1
/// and exactly one NPS group holding all 8 cores.
#[test]
fn single_socket_eight_cores_nps1() {
    let raw: Vec<CpuCore> = (0..8).map(|i| raw_core(i, i, 0, 0, 0)).collect();
    let t = build_topology(&raw, 1);
    assert_eq!(t.total_threads, 8);
    assert_eq!(t.total_cores, 8);
    assert!(!t.smt_enabled);
    assert_eq!(t.nps_mode, NpsMode::Nps1);
    assert_eq!(t.nps_nodes.len(), 1);
    assert_eq!(t.nps_nodes[0].cores, vec![0, 1, 2, 3, 4, 5, 6, 7]);
    assert_eq!(t.numa_nodes.len(), 1);
    assert_eq!(t.ccds.len(), 1);
    assert_eq!(t.ccds[0].cores, vec![0, 1, 2, 3, 4, 5, 6, 7]);
    // 8 cores on one die reads as the third generation band.
    assert_eq!(t.generation, ZenGeneration::Zen3);
    for (i, c) in t.cores.iter().enumerate() {
        assert_eq!(c.id, i);
        assert_eq!(c.smt_sibling, None);
    }
}

/// 2 packages x 2 dies x 4 physical cores x 2 threads: SMT pairing is
/// symmetric and each pair shares a physical core.
#[test]
fn dual_socket_smt_topology() {
    // Thread t of physical core p gets id 2p + t; siblings are (2p, 2p+1).
    let mut raw: Vec<CpuCore> = Vec::new();
    for p in 0..16 {
        for t in 0..2 {
            raw.push(raw_core(2 * p + t, p, p / 4, p / 8, p / 8));
        }
    }
    let t = build_topology(&raw, 2);
    assert_eq!(t.total_threads, 32);
    assert_eq!(t.total_cores, 16);
    assert!(t.smt_enabled);
    assert_eq!(t.ccds.len(), 4);
    assert_eq!(t.numa_nodes.len(), 2);
    // Each die holds its 8 thread ids, ascending.
    assert_eq!(t.ccds[0].cores, vec![0, 1, 2, 3, 4, 5, 6, 7]);
    assert_eq!(t.ccds[0].package_id, 0);
    assert_eq!(t.ccds[3].cores, vec![24, 25, 26, 27, 28, 29, 30, 31]);
    assert_eq!(t.ccds[3].package_id, 1);
    // Sibling symmetry over every pair.
    for c in &t.cores {
        let sib = c.smt_sibling.expect("every thread has a sibling here");
        assert_eq!(t.cores[sib].smt_sibling, Some(c.id));
        assert_ne!(sib, c.id);
    }
    assert_eq!(t.cores[0].smt_sibling, Some(1));
    assert_eq!(t.cores[1].smt_sibling, Some(0));
    // The partition invariant on concrete data: die and NUMA sizes sum to
    // the thread count.
    let ccd_sum: usize = t.ccds.iter().map(|c| c.cores.len()).sum();
    let numa_sum: usize = t.numa_nodes.iter().map(|n| n.cores.len()).sum();
    assert_eq!(ccd_sum, 32);
    assert_eq!(numa_sum, 32);
}

/// 8 NUMA nodes over 2 packages: nodes 0..4 form NPS node 0 and 4..8 form
/// NPS node 1, each holding the sorted, deduplicated union of its block.
#[test]
fn nps_partition_eight_nodes_two_packages() {
    let nodes: Vec<NumaNode> = (0..8)
        .map(|i| NumaNode { id: i, cores: vec![2 * i, 2 * i + 1], memory_mb: None })
        .collect();
    let nps = build_nps_nodes(&nodes, 2);
    assert_eq!(nps.len(), 2);
    assert_eq!(nps[0].id, 0);
    assert_eq!(nps[0].numa_nodes, vec![0, 1, 2, 3]);
    assert_eq!(nps[0].cores, vec![0, 1, 2, 3, 4, 5, 6, 7]);
    assert_eq!(nps[1].id, 1);
    assert_eq!(nps[1].numa_nodes, vec![4, 5, 6, 7]);
    assert_eq!(nps[1].cores, vec![8, 9, 10, 11, 12, 13, 14, 15]);
}

/// Overlapping member lists are deduplicated within a block.
#[test]
fn nps_partition_dedups_members() {
    let nodes = vec![
        NumaNode { id: 0, cores: vec![0, 1, 2], memory_mb: None },
        NumaNode { id: 1, cores: vec![2, 3, 0], memory_mb: None },
    ];
    let nps = build_nps_nodes(&nodes, 1);
    assert_eq!(nps.len(), 1);
    assert_eq!(nps[0].cores, vec![0, 1, 2, 3]);
}

/// Fewer NUMA nodes than packages collapses into one synthetic group, the
/// member lists concatenated as they are.
#[test]
fn nps_fallback_single_group() {
    let nodes = vec![NumaNode { id: 0, cores: vec![0, 1, 2, 3], memory_mb: None }];
    let nps = build_nps_nodes(&nodes, 2);
    assert_eq!(nps.len(), 1);
    assert_eq!(nps[0].id, 0);
    assert_eq!(nps[0].numa_nodes, vec![0]);
    assert_eq!(nps[0].cores, vec![0, 1, 2, 3]);
}

#[test]
fn nps_mode_classification() {
    assert_eq!(detect_nps_mode(4, 0), NpsMode::Unknown);
    assert_eq!(detect_nps_mode(0, 2), NpsMode::Nps1);
    assert_eq!(detect_nps_mode(2, 2), NpsMode::Nps1);
    assert_eq!(detect_nps_mode(4, 2), NpsMode::Nps2);
    assert_eq!(detect_nps_mode(8, 2), NpsMode::Nps4);
    assert_eq!(detect_nps_mode(6, 2), NpsMode::Unknown);
    assert_eq!(detect_nps_mode(16, 2), NpsMode::Unknown);
}

fn obj(
    object_type: HwObjectType,
    os_index: Option<usize>,
    logical_index: usize,
    parent: Option<usize>,
    cpuset: Option<Vec<usize>>,
) -> HwObject {
    HwObject { object_type, os_index, logical_index, parent, cpuset }
}

/// A synthetic hardware tree: one package, one L3 domain, two physical
/// cores with two processing units each; the NUMA node is found by cpuset
/// containment, not ancestry.
#[test]
fn detect_topology_from_synthetic_tree() {
    let objects = vec![
        // 0: machine root
        obj(HwObjectType::Other, None, 0, None, Some(vec![0, 1, 2, 3])),
        // 1: a NUMA node attached outside the CPU ancestry
        obj(HwObjectType::NumaNode, Some(0), 0, Some(0), Some(vec![0, 1, 2, 3])),
        // 2: the package
        obj(HwObjectType::Package, Some(0), 0, Some(0), Some(vec![0, 1, 2, 3])),
        // 3: the L3 cache domain
        obj(HwObjectType::L3Cache, None, 0, Some(2), Some(vec![0, 1, 2, 3])),
        // 4: physical core 0 with PUs 0 and 1
        obj(HwObjectType::Core, Some(0), 0, Some(3), Some(vec![0, 1])),
        obj(HwObjectType::Pu, Some(0), 0, Some(4), Some(vec![0])),
        obj(HwObjectType::Pu, Some(1), 1, Some(4), Some(vec![1])),
        // 7: physical core 1 with PUs 2 and 3
        obj(HwObjectType::Core, Some(1), 1, Some(3), Some(vec![2, 3])),
        obj(HwObjectType::Pu, Some(2), 2, Some(7), Some(vec![2])),
        obj(HwObjectType::Pu, Some(3), 3, Some(7), Some(vec![3])),
    ];
    let tree = HwTree { objects };
    let t = detect_topology(&tree);
    assert_eq!(t.packages, 1);
    assert_eq!(t.total_threads, 4);
    assert_eq!(t.total_cores, 2);
    assert!(t.smt_enabled);
    assert_eq!(t.cores[0].numa_node, 0);
    assert_eq!(t.cores[0].package_id, 0);
    assert_eq!(t.cores[0].ccd_id, 0);
    assert_eq!(t.cores[0].physical_id, 0);
    assert_eq!(t.cores[2].physical_id, 1);
    assert_eq!(t.cores[0].smt_sibling, Some(1));
    assert_eq!(t.cores[1].smt_sibling, Some(0));
    assert_eq!(t.cores[2].smt_sibling, Some(3));
    assert_eq!(t.cores[3].smt_sibling, Some(2));
    assert_eq!(t.ccds.len(), 1);
    assert_eq!(t.ccds[0].cores, vec![0, 1, 2, 3]);
    assert_eq!(t.numa_nodes.len(), 1);
    assert_eq!(t.numa_nodes[0].cores, vec![0, 1, 2, 3]);
}

/// A tree whose processing units report no OS index falls back to
/// assignment order, and a missing core ancestor falls back to the id.
#[test]
fn detect_topology_fallbacks() {
    let objects = vec![
        obj(HwObjectType::Other, None, 0, None, None),
        obj(HwObjectType::Pu, None, 0, Some(0), None),
        obj(HwObjectType::Pu, None, 1, Some(0), None),
    ];
    let tree = HwTree { objects };
    let t = detect_topology(&tree);
    // No package objects: defensively one package.
    assert_eq!(t.packages, 1);
    assert_eq!(t.total_threads, 2);
    assert_eq!(t.cores[0].id, 0);
    assert_eq!(t.cores[1].id, 1);
    assert_eq!(t.cores[0].physical_id, 0);
    assert_eq!(t.cores[1].physical_id, 1);
    assert_eq!(t.cores[0].numa_node, 0);
    assert_eq!(t.cores[0].package_id, 0);
    assert!(!t.smt_enabled);
}

/// Unsorted raw input is placed by id.
#[test]
fn build_topology_orders_by_id() {
    let raw = vec![
        raw_core(2, 2, 0, 0, 0),
        raw_core(0, 0, 0, 0, 0),
        raw_core(1, 1, 0, 0, 0),
    ];
    let t = build_topology(&raw, 1);
    assert_eq!(t.cores[0].id, 0);
    assert_eq!(t.cores[1].id, 1);
    assert_eq!(t.cores[2].id, 2);
}
