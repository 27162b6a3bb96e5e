use vstd::prelude::*;
use vstd::arithmetic::div_mod::{lemma_div_is_ordered, lemma_div_multiples_vanish};

verus! {

/// Utilization of a single logical CPU, in hundredths of a percent
/// (0..=10000), with its clock frequency when known. Produced fresh on
/// every refresh.
#[derive(Debug, Clone, Copy)]
pub struct CoreUsage {
    pub core_id: usize,
    /// Utilization in hundredths of a percent: 10000 means 100%.
    pub usage_centi: u32,
    pub frequency_mhz: Option<u64>,
}

/// A utilization value stays within 0..=100%.
pub open spec fn core_usage_wf(u: CoreUsage) -> bool {
    u.usage_centi <= 10000
}

pub open spec fn usages_wf(s: Seq<CoreUsage>) -> bool {
    forall|i: int| 0 <= i < s.len() ==> core_usage_wf(#[trigger] s[i])
}

/// Sum of the utilization values of a sample list.
pub open spec fn sum_centi(s: Seq<CoreUsage>) -> int
    decreases s.len(),
{
    if s.len() == 0 {
        0
    } else {
        sum_centi(s.drop_last()) + s.last().usage_centi
    }
}

/// Arithmetic mean (rounded down) of a sample list; 0 for an empty list.
pub open spec fn mean_centi_of(s: Seq<CoreUsage>) -> int {
    if s.len() == 0 {
        0
    } else {
        sum_centi(s) / (s.len() as int)
    }
}

/// Least utilization in a sample list; 0 for an empty list.
pub open spec fn min_centi_of(s: Seq<CoreUsage>) -> int
    decreases s.len(),
{
    if s.len() == 0 {
        0
    } else if s.len() == 1 {
        s[0].usage_centi as int
    } else {
        let m = min_centi_of(s.drop_last());
        let v = s.last().usage_centi as int;
        if v < m {
            v
        } else {
            m
        }
    }
}

/// Greatest utilization in a sample list; 0 for an empty list.
pub open spec fn max_centi_of(s: Seq<CoreUsage>) -> int
    decreases s.len(),
{
    if s.len() == 0 {
        0
    } else {
        let m = max_centi_of(s.drop_last());
        let v = s.last().usage_centi as int;
        if v > m {
            v
        } else {
            m
        }
    }
}

proof fn lemma_sum_bounds(s: Seq<CoreUsage>)
    requires
        usages_wf(s),
    ensures
        0 <= sum_centi(s) <= 10000 * s.len(),
    decreases s.len(),
{
    if s.len() > 0 {
        lemma_sum_bounds(s.drop_last());
    }
}

/// Aggregated utilization of one topology group: mean, min and max over the
/// members, plus the members themselves for per-core rendering.
#[derive(Debug, Clone)]
pub struct GroupUsage {
    pub name: String,
    pub id: usize,
    /// Mean utilization in hundredths of a percent, rounded down.
    pub mean_centi: u32,
    pub min_centi: u32,
    pub max_centi: u32,
    pub core_count: usize,
    pub member_usages: Vec<CoreUsage>,
}

impl GroupUsage {
    /// Fold the samples of one group's members into a `GroupUsage`.
    ///
    /// For an empty member list, mean, min and max are all 0 and the count
    /// is 0. The member list is carried over unchanged, so per-core entries
    /// can be re-derived from the aggregate without loss.
    pub fn from_cores(name: String, id: usize, usages: &Vec<CoreUsage>) -> (r: GroupUsage)
        requires
            usages_wf(usages@),
        ensures
            r.name@ == name@,
            r.id == id,
            r.core_count == usages@.len(),
            r.member_usages@ == usages@,
            r.mean_centi == mean_centi_of(usages@),
            r.min_centi == min_centi_of(usages@),
            r.max_centi == max_centi_of(usages@),
            r.mean_centi <= 10000 && r.min_centi <= 10000 && r.max_centi <= 10000,
    {
        let mean_centi = mean_of(usages);
        let mut min_centi: u32 = 0;
        let mut max_centi: u32 = 0;
        let n = usages.len();
        let mut i: usize = 0;
        while i < n
            invariant
                n == usages@.len(),
                0 <= i <= n,
                usages_wf(usages@),
                min_centi == min_centi_of(usages@.take(i as int)),
                max_centi == max_centi_of(usages@.take(i as int)),
                min_centi <= 10000,
                max_centi <= 10000,
            decreases n - i,
        {
            let v = usages[i].usage_centi;
            if i == 0 {
                min_centi = v;
                max_centi = v;
            } else {
                if v < min_centi {
                    min_centi = v;
                }
                if v > max_centi {
                    max_centi = v;
                }
            }
            proof {
                assert(usages@.take(i + 1 as int).drop_last() =~= usages@.take(i as int));
                assert(usages@.take(i + 1 as int).last() == usages@[i as int]);
            }
            i = i + 1;
        }
        proof {
            assert(usages@.take(n as int) =~= usages@);
        }
        let mut member_usages: Vec<CoreUsage> = Vec::new();
        let mut j: usize = 0;
        while j < n
            invariant
                n == usages@.len(),
                0 <= j <= n,
                member_usages@ == usages@.take(j as int),
            decreases n - j,
        {
            member_usages.push(usages[j]);
            proof {
                assert(usages@.take(j + 1 as int) =~= usages@.take(j as int).push(usages@[j as int]));
            }
            j = j + 1;
        }
        proof {
            assert(usages@.take(n as int) =~= usages@);
        }
        GroupUsage {
            name,
            id,
            mean_centi,
            min_centi,
            max_centi,
            core_count: n,
            member_usages,
        }
    }
}

/// Mean utilization (rounded down) over a sample list; 0 when it is empty.
fn mean_of(usages: &Vec<CoreUsage>) -> (m: u32)
    requires
        usages_wf(usages@),
    ensures
        m == mean_centi_of(usages@),
        m <= 10000,
{
    let n = usages.len();
    if n == 0 {
        return 0;
    }
    let mut acc: u128 = 0;
    let mut i: usize = 0;
    while i < n
        invariant
            n == usages@.len(),
            0 <= i <= n,
            usages_wf(usages@),
            acc == sum_centi(usages@.take(i as int)),
            acc <= 10000 * (i as u128),
        decreases n - i,
    {
        proof {
            assert(usages@.take(i + 1 as int).drop_last() =~= usages@.take(i as int));
            assert(usages@.take(i + 1 as int).last() == usages@[i as int]);
        }
        acc = acc + usages[i].usage_centi as u128;
        i = i + 1;
    }
    proof {
        assert(usages@.take(n as int) =~= usages@);
        lemma_sum_bounds(usages@);
        lemma_div_is_ordered(sum_centi(usages@), 10000 * (n as int), n as int);
        lemma_div_multiples_vanish(10000, n as int);
    }
    (acc / (n as u128)) as u32
}

/// Two sample lists that differ in one member only, where the replacement
/// does not shrink that member's utilization, have nondecreasing sums.
proof fn lemma_sum_update_monotonic(s1: Seq<CoreUsage>, s2: Seq<CoreUsage>, k: int)
    requires
        s1.len() == s2.len(),
        0 <= k < s1.len(),
        forall|i: int| 0 <= i < s1.len() && i != k ==> s1[i] == s2[i],
        s1[k].usage_centi <= s2[k].usage_centi,
    ensures
        sum_centi(s1) <= sum_centi(s2),
    decreases s1.len(),
{
    if k == s1.len() - 1 {
        assert(s1.drop_last() =~= s2.drop_last());
    } else {
        lemma_sum_update_monotonic(s1.drop_last(), s2.drop_last(), k);
    }
}

/// The group mean is monotonic in each member: replacing any one member's
/// utilization with a larger value cannot decrease the mean that
/// `GroupUsage::from_cores` computes.
pub proof fn lemma_mean_monotonic(s1: Seq<CoreUsage>, s2: Seq<CoreUsage>, k: int)
    requires
        s1.len() == s2.len(),
        0 <= k < s1.len(),
        forall|i: int| 0 <= i < s1.len() && i != k ==> s1[i] == s2[i],
        s1[k].usage_centi <= s2[k].usage_centi,
    ensures
        mean_centi_of(s1) <= mean_centi_of(s2),
{
    lemma_sum_update_monotonic(s1, s2, k);
    lemma_div_is_ordered(sum_centi(s1), sum_centi(s2), s1.len() as int);
}

/// A per-refresh snapshot of all logical CPUs' utilization. Immutable once
/// built; a refresh replaces the whole snapshot.
#[derive(Debug, Clone)]
pub struct SystemStats {
    /// When the snapshot was taken, in milliseconds (an injected clock value).
    pub timestamp_ms: u64,
    /// Per-CPU samples, ordered so that `core_usages[i].core_id == i`.
    pub core_usages: Vec<CoreUsage>,
    /// Mean utilization over all CPUs in hundredths of a percent; 0 if none.
    pub total_centi: u32,
}

impl SystemStats {
    /// Sample ids are dense from 0 and all values are valid percentages.
    pub open spec fn wf(self) -> bool {
        &&& usages_wf(self.core_usages@)
        &&& forall|i: int|
            0 <= i < self.core_usages@.len()
                ==> (#[trigger] self.core_usages@[i]).core_id == i
    }

    /// Build a snapshot from raw per-CPU samples: pairs of utilization in
    /// hundredths of a percent and clock frequency in MHz, indexed by
    /// logical CPU id. An empty sample list (a degraded refresh) yields an
    /// all-zero snapshot.
    pub fn from_samples(samples: &Vec<(u32, u64)>, timestamp_ms: u64) -> (r: SystemStats)
        requires
            forall|i: int| 0 <= i < samples@.len() ==> (#[trigger] samples@[i]).0 <= 10000,
        ensures
            r.timestamp_ms == timestamp_ms,
            r.core_usages@.len() == samples@.len(),
            forall|i: int|
                0 <= i < samples@.len() ==> #[trigger] r.core_usages@[i] == (CoreUsage {
                    core_id: i as usize,
                    usage_centi: samples@[i].0,
                    frequency_mhz: Some(samples@[i].1),
                }),
            r.total_centi == mean_centi_of(r.core_usages@),
            r.wf(),
    {
        let n = samples.len();
        let mut core_usages: Vec<CoreUsage> = Vec::new();
        let mut i: usize = 0;
        while i < n
            invariant
                n == samples@.len(),
                0 <= i <= n,
                forall|j: int| 0 <= j < n ==> (#[trigger] samples@[j]).0 <= 10000,
                core_usages@.len() == i,
                forall|j: int|
                    0 <= j < i ==> #[trigger] core_usages@[j] == (CoreUsage {
                        core_id: j as usize,
                        usage_centi: samples@[j].0,
                        frequency_mhz: Some(samples@[j].1),
                    }),
            decreases n - i,
        {
            let (usage, freq) = samples[i];
            core_usages.push(CoreUsage { core_id: i, usage_centi: usage, frequency_mhz: Some(freq) });
            i = i + 1;
        }
        let total_centi = mean_of(&core_usages);
        SystemStats { timestamp_ms, core_usages, total_centi }
    }
}

impl Default for SystemStats {
    fn default() -> (r: Self)
        ensures
            r.timestamp_ms == 0,
            r.core_usages@ == Seq::<CoreUsage>::empty(),
            r.total_centi == 0,
            r.wf(),
    {
        SystemStats { timestamp_ms: 0, core_usages: Vec::new(), total_centi: 0 }
    }
}

} // verus!
