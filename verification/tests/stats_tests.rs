use zentop::stats::{CoreUsage, GroupUsage, SystemStats};

fn sample(core_id: usize, usage_centi: u32) -> CoreUsage {
    CoreUsage { core_id, usage_centi, frequency_mhz: Some(3600) }
}

/// An empty member list aggregates to zero mean, min and max and count 0.
#[test]
fn aggregate_empty_group() {
    let usages: Vec<CoreUsage> = Vec::new();
    let g = GroupUsage::from_cores(String::from("idle"), 7, &usages);
    assert_eq!(g.mean_centi, 0);
    assert_eq!(g.min_centi, 0);
    assert_eq!(g.max_centi, 0);
    assert_eq!(g.core_count, 0);
    assert_eq!(g.id, 7);
    assert_eq!(g.name, "idle");
    assert!(g.member_usages.is_empty());
}

/// Mean, min and max are exact integer statistics.
#[test]
fn aggregate_exact_statistics() {
    let usages = vec![sample(0, 1000), sample(1, 2000), sample(2, 4500)];
    let g = GroupUsage::from_cores(String::from("g"), 0, &usages);
    // (1000 + 2000 + 4500) / 3 = 2500
    assert_eq!(g.mean_centi, 2500);
    assert_eq!(g.min_centi, 1000);
    assert_eq!(g.max_centi, 4500);
    assert_eq!(g.core_count, 3);
}

/// The mean rounds down.
#[test]
fn aggregate_mean_rounds_down() {
    let usages = vec![sample(0, 1000), sample(1, 1001)];
    let g = GroupUsage::from_cores(String::from("g"), 0, &usages);
    assert_eq!(g.mean_centi, 1000);
}

/// Replacing one member's usage with a larger value cannot decrease the
/// mean (checked here on concrete values; proved in general).
#[test]
fn aggregate_mean_monotonic_concrete() {
    let before = vec![sample(0, 1000), sample(1, 2000), sample(2, 3000)];
    let after = vec![sample(0, 1000), sample(1, 6000), sample(2, 3000)];
    let g1 = GroupUsage::from_cores(String::from("g"), 0, &before);
    let g2 = GroupUsage::from_cores(String::from("g"), 0, &after);
    assert!(g2.mean_centi >= g1.mean_centi);
    assert_eq!(g1.mean_centi, 2000);
    assert_eq!(g2.mean_centi, 3333);
}

/// Round trip: the member list survives aggregation unchanged, so per-core
/// entries re-derived from it reproduce the inputs.
#[test]
fn aggregate_round_trip() {
    let usages = vec![sample(4, 1234), sample(9, 0), sample(2, 10000)];
    let g = GroupUsage::from_cores(String::from("g"), 1, &usages);
    assert_eq!(g.member_usages.len(), usages.len());
    for (a, b) in g.member_usages.iter().zip(usages.iter()) {
        assert_eq!(a.core_id, b.core_id);
        assert_eq!(a.usage_centi, b.usage_centi);
        assert_eq!(a.frequency_mhz, b.frequency_mhz);
    }
}

/// A snapshot indexes samples densely and totals their mean.
#[test]
fn snapshot_from_samples() {
    let samples = vec![(1000u32, 3000u64), (2000, 3100), (6000, 3200)];
    let s = SystemStats::from_samples(&samples, 42);
    assert_eq!(s.timestamp_ms, 42);
    assert_eq!(s.core_usages.len(), 3);
    for (i, u) in s.core_usages.iter().enumerate() {
        assert_eq!(u.core_id, i);
    }
    assert_eq!(s.core_usages[2].usage_centi, 6000);
    assert_eq!(s.core_usages[1].frequency_mhz, Some(3100));
    // (1000 + 2000 + 6000) / 3 = 3000
    assert_eq!(s.total_centi, 3000);
}

/// An empty sample list (a degraded refresh) yields an all-zero snapshot.
#[test]
fn snapshot_empty_is_zero() {
    let samples: Vec<(u32, u64)> = Vec::new();
    let s = SystemStats::from_samples(&samples, 7);
    assert_eq!(s.total_centi, 0);
    assert!(s.core_usages.is_empty());
}

#[test]
fn snapshot_default() {
    let s = SystemStats::default();
    assert_eq!(s.timestamp_ms, 0);
    assert_eq!(s.total_centi, 0);
    assert!(s.core_usages.is_empty());
}
