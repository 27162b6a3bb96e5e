use vstd::prelude::*;
use crate::topology::{Ccd, CpuCore, NpsMode, NpsNode, NumaNode, ZenGeneration, ZenTopology};
use crate::zen::{detect_zen_generation, zen_generation_of};
use crate::grouping::{
    collect_sorted_keys, ids_with_key, insert_sorted_unique, lemma_groups_partition,
    lemma_ids_with_key_from_pairs, lemma_ids_with_key_nonempty, members_of_key, strictly_sorted,
    sum_group_sizes,
};
use vstd::arithmetic::mul::{lemma_mul_inequality, lemma_mul_is_distributive_add_other_way};
use vstd::arithmetic::div_mod::{lemma_div_is_ordered, lemma_div_by_self, lemma_fundamental_div_mod, lemma_mod_division_less_than_divisor};
use vstd::pervasive::unreached;

verus! {

/// Topology inference: from a flat list of raw logical CPUs (as extracted
/// from the hardware enumeration) to the full hierarchical `ZenTopology`.

/// Two logical CPUs belong to the same physical core.
pub open spec fn same_class(a: CpuCore, b: CpuCore) -> bool {
    a.package_id == b.package_id && a.physical_id == b.physical_id
}

/// Some other logical CPU shares `s[i]`'s physical core.
pub open spec fn has_classmate(s: Seq<CpuCore>, i: int) -> bool {
    exists|j: int| 0 <= j < s.len() && j != i && same_class(#[trigger] s[j], s[i])
}

/// SMT siblings are fully assigned: a CPU without a classmate has no
/// sibling, and one with a classmate has the first classmate (in id order)
/// as its sibling.
pub open spec fn siblings_assigned(s: Seq<CpuCore>) -> bool {
    forall|i: int|
        0 <= i < s.len() ==> match (#[trigger] s[i]).smt_sibling {
            Option::None => !has_classmate(s, i),
            Option::Some(sb) => {
                &&& sb < s.len()
                &&& sb != i
                &&& same_class(s[sb as int], s[i])
                &&& forall|j: int| 0 <= j < sb && j != i ==> !same_class(#[trigger] s[j], s[i])
            },
        }
}

/// At most two logical CPUs share any physical core (2-way SMT).
pub open spec fn two_way_smt(s: Seq<CpuCore>) -> bool {
    forall|i: int, j: int, k: int|
        0 <= i < s.len() && 0 <= j < s.len() && 0 <= k < s.len() && i != j && i != k && j != k
            ==> !(same_class(#[trigger] s[j], #[trigger] s[i]) && same_class(
            #[trigger] s[k],
            s[i],
        ))
}

/// Sibling symmetry: under 2-way SMT, every logical CPU with an SMT sibling
/// is in turn that sibling's sibling.
pub proof fn lemma_smt_sibling_symmetric(s: Seq<CpuCore>, i: int, sb: usize)
    requires
        siblings_assigned(s),
        two_way_smt(s),
        0 <= i < s.len(),
        s[i].smt_sibling == Some(sb),
    ensures
        sb < s.len(),
        s[sb as int].smt_sibling == Some(i as usize),
{
    assert(same_class(s[sb as int], s[i]));
    assert(same_class(s[i], s[sb as int]));
    assert(has_classmate(s, sb as int));
    match s[sb as int].smt_sibling {
        Option::None => {
            assert(false);
        },
        Option::Some(sb2) => {
            if sb2 != i {
                assert(same_class(s[sb2 as int], s[sb as int]));
                assert(!(same_class(s[sb2 as int], s[sb as int]) && same_class(
                    s[i],
                    s[sb as int],
                )));
                assert(false);
            }
        },
    }
}

/// Whether some id `k` occurs among the raw CPUs.
pub open spec fn contains_id(s: Seq<CpuCore>, k: usize) -> bool {
    exists|i: int| 0 <= i < s.len() && (#[trigger] s[i]).id == k
}

/// Ids are dense from 0: every index below the count occurs as an id.
pub open spec fn ids_dense(s: Seq<CpuCore>) -> bool {
    forall|k: usize| k < s.len() ==> #[trigger] contains_id(s, k)
}

/// Index of the first CPU carrying id `k`.
fn find_core_with_id(cores: &Vec<CpuCore>, k: usize) -> (r: usize)
    requires
        contains_id(cores@, k),
    ensures
        r < cores@.len(),
        cores@[r as int].id == k,
{
    let n = cores.len();
    let mut i: usize = 0;
    while i < n
        invariant
            n == cores@.len(),
            0 <= i <= n,
            contains_id(cores@, k),
            forall|j: int| 0 <= j < i ==> (#[trigger] cores@[j]).id != k,
        decreases n - i,
    {
        if cores[i].id == k {
            return i;
        }
        i = i + 1;
    }
    proof {
        assert(false);
    }
    unreached()
}

/// Order the raw CPUs by id, so that the vector index equals the id.
fn place_by_id(raw: &Vec<CpuCore>) -> (r: Vec<CpuCore>)
    requires
        ids_dense(raw@),
    ensures
        r@.len() == raw@.len(),
        forall|k: int| 0 <= k < r@.len() ==> (#[trigger] r@[k]).id == k,
        forall|k: int| 0 <= k < r@.len() ==> raw@.contains(#[trigger] r@[k]),
{
    let n = raw.len();
    let mut r: Vec<CpuCore> = Vec::new();
    let mut k: usize = 0;
    while k < n
        invariant
            n == raw@.len(),
            0 <= k <= n,
            ids_dense(raw@),
            r@.len() == k,
            forall|m: int| 0 <= m < k ==> (#[trigger] r@[m]).id == m,
            forall|m: int| 0 <= m < k ==> raw@.contains(#[trigger] r@[m]),
        decreases n - k,
    {
        proof {
            assert(contains_id(raw@, k));
        }
        let idx = find_core_with_id(raw, k);
        r.push(raw[idx]);
        proof {
            assert(raw@[idx as int] == r@[k as int]);
            assert(raw@.contains(r@[k as int]));
        }
        k = k + 1;
    }
    r
}

/// The same CPU with its sibling field cleared.
pub open spec fn clear_sibling(c: CpuCore) -> CpuCore {
    CpuCore { smt_sibling: None, ..c }
}

/// Index of the first classmate of `cores[i]`, scanning in id order.
fn first_classmate(cores: &Vec<CpuCore>, i: usize) -> (r: Option<usize>)
    requires
        i < cores@.len(),
    ensures
        match r {
            Option::None => !has_classmate(cores@, i as int),
            Option::Some(j) => {
                &&& j < cores@.len()
                &&& j != i
                &&& same_class(cores@[j as int], cores@[i as int])
                &&& forall|m: int|
                    0 <= m < j && m != i ==> !same_class(
                        #[trigger] cores@[m],
                        cores@[i as int],
                    )
            },
        },
{
    let n = cores.len();
    let mut j: usize = 0;
    while j < n
        invariant
            n == cores@.len(),
            i < n,
            0 <= j <= n,
            forall|m: int|
                0 <= m < j && m != i ==> !same_class(#[trigger] cores@[m], cores@[i as int]),
        decreases n - j,
    {
        if j != i && cores[j].package_id == cores[i].package_id && cores[j].physical_id
            == cores[i].physical_id {
            return Some(j);
        }
        j = j + 1;
    }
    None
}

/// Cross-assign SMT siblings: each CPU with a classmate points at its first
/// classmate. Returns the updated CPUs and whether SMT is enabled anywhere.
fn assign_siblings(cores: &Vec<CpuCore>) -> (r: (Vec<CpuCore>, bool))
    ensures
        r.0@.len() == cores@.len(),
        forall|i: int|
            0 <= i < cores@.len() ==> clear_sibling(#[trigger] r.0@[i]) == clear_sibling(
                cores@[i],
            ),
        siblings_assigned(r.0@),
        r.1 <==> exists|i: int| 0 <= i < cores@.len() && #[trigger] has_classmate(cores@, i),
{
    let n = cores.len();
    let mut out: Vec<CpuCore> = Vec::new();
    let mut smt: bool = false;
    let mut i: usize = 0;
    while i < n
        invariant
            n == cores@.len(),
            0 <= i <= n,
            out@.len() == i,
            forall|m: int|
                0 <= m < i ==> clear_sibling(#[trigger] out@[m]) == clear_sibling(cores@[m]),
            forall|m: int|
                0 <= m < i ==> match (#[trigger] out@[m]).smt_sibling {
                    Option::None => !has_classmate(cores@, m),
                    Option::Some(sb) => {
                        &&& sb < cores@.len()
                        &&& sb != m
                        &&& same_class(cores@[sb as int], cores@[m])
                        &&& forall|j: int|
                            0 <= j < sb && j != m ==> !same_class(
                                #[trigger] cores@[j],
                                cores@[m],
                            )
                    },
                },
            smt <==> exists|m: int| 0 <= m < i && #[trigger] has_classmate(cores@, m),
        decreases n - i,
    {
        let sib = first_classmate(cores, i);
        let c = cores[i];
        match sib {
            Option::Some(j) => {
                out.push(
                    CpuCore {
                        id: c.id,
                        physical_id: c.physical_id,
                        ccd_id: c.ccd_id,
                        ccx_id: c.ccx_id,
                        numa_node: c.numa_node,
                        package_id: c.package_id,
                        smt_sibling: Some(j),
                    },
                );
                smt = true;
                proof {
                    assert(has_classmate(cores@, i as int));
                }
            },
            Option::None => {
                out.push(
                    CpuCore {
                        id: c.id,
                        physical_id: c.physical_id,
                        ccd_id: c.ccd_id,
                        ccx_id: c.ccx_id,
                        numa_node: c.numa_node,
                        package_id: c.package_id,
                        smt_sibling: None,
                    },
                );
            },
        }
        i = i + 1;
    }
    proof {
        assert forall|i2: int| 0 <= i2 < out@.len() implies match (#[trigger] out@[i2]).smt_sibling {
            Option::None => !has_classmate(out@, i2),
            Option::Some(sb) => {
                &&& sb < out@.len()
                &&& sb != i2
                &&& same_class(out@[sb as int], out@[i2])
                &&& forall|j: int|
                    0 <= j < sb && j != i2 ==> !same_class(#[trigger] out@[j], out@[i2])
            },
        } by {
            assert(clear_sibling(out@[i2]) == clear_sibling(cores@[i2]));
            assert forall|a: int, b: int|
                0 <= a < n && 0 <= b < n implies same_class(out@[a], out@[b]) == same_class(
                cores@[a],
                cores@[b],
            ) by {
                assert(clear_sibling(out@[a]) == clear_sibling(cores@[a]));
                assert(clear_sibling(out@[b]) == clear_sibling(cores@[b]));
            }
            match out@[i2].smt_sibling {
                Option::None => {
                    assert(!has_classmate(cores@, i2));
                    if has_classmate(out@, i2) {
                        let j = choose|j: int|
                            0 <= j < out@.len() && j != i2 && same_class(out@[j], out@[i2]);
                        assert(same_class(cores@[j], cores@[i2]));
                        assert(false);
                    }
                },
                Option::Some(sb) => {},
            }
        }
    }
    (out, smt)
}

/// Number of distinct physical cores: counts each CPU that is the first of
/// its (package, physical core) class.
pub open spec fn class_reps(s: Seq<CpuCore>) -> int
    decreases s.len(),
{
    if s.len() == 0 {
        0
    } else {
        class_reps(s.drop_last()) + if exists|j: int|
            0 <= j < s.len() - 1 && same_class(#[trigger] s[j], s.last()) {
            0int
        } else {
            1int
        }
    }
}

/// Count the distinct physical cores of `cores`.
fn count_physical_cores(cores: &Vec<CpuCore>) -> (r: usize)
    ensures
        r == class_reps(cores@),
        r <= cores@.len(),
{
    let n = cores.len();
    let mut count: usize = 0;
    let mut i: usize = 0;
    while i < n
        invariant
            n == cores@.len(),
            0 <= i <= n,
            count == class_reps(cores@.take(i as int)),
            count <= i,
        decreases n - i,
    {
        let mut seen: bool = false;
        let mut j: usize = 0;
        while j < i
            invariant
                n == cores@.len(),
                0 <= j <= i < n,
                seen <==> exists|m: int|
                    0 <= m < j && same_class(#[trigger] cores@[m], cores@[i as int]),
            decreases i - j,
        {
            if cores[j].package_id == cores[i].package_id && cores[j].physical_id
                == cores[i].physical_id {
                seen = true;
                proof {
                    assert(same_class(cores@[j as int], cores@[i as int]));
                }
            }
            j = j + 1;
        }
        proof {
            let prefix = cores@.take(i + 1 as int);
            assert(prefix.drop_last() =~= cores@.take(i as int));
            assert(prefix.last() == cores@[i as int]);
            assert forall|m: int| 0 <= m < i implies prefix[m] == cores@[m] by {}
            if seen {
                let m = choose|m: int|
                    0 <= m < i && same_class(#[trigger] cores@[m], cores@[i as int]);
                assert(same_class(prefix[m], prefix.last()));
            } else {
                if exists|m: int| 0 <= m < prefix.len() - 1 && same_class(
                    #[trigger] prefix[m],
                    prefix.last(),
                ) {
                    let m = choose|m: int|
                        0 <= m < prefix.len() - 1 && same_class(
                            #[trigger] prefix[m],
                            prefix.last(),
                        );
                    assert(same_class(cores@[m], cores@[i as int]));
                    assert(false);
                }
            }
        }
        if !seen {
            count = count + 1;
        }
        i = i + 1;
    }
    proof {
        assert(cores@.take(n as int) =~= cores@);
    }
    count
}

/// The (die, id) pair of every logical CPU.
pub open spec fn ccd_pairs(s: Seq<CpuCore>) -> Seq<(usize, usize)> {
    s.map_values(|c: CpuCore| (c.ccd_id, c.id))
}

/// The (NUMA node, id) pair of every logical CPU.
pub open spec fn numa_pairs(s: Seq<CpuCore>) -> Seq<(usize, usize)> {
    s.map_values(|c: CpuCore| (c.numa_node, c.id))
}

/// The die ids of a die list.
pub open spec fn ccd_ids(r: Seq<Ccd>) -> Seq<usize> {
    r.map_values(|g: Ccd| g.id)
}

/// The node ids of a NUMA node list.
pub open spec fn numa_ids(r: Seq<NumaNode>) -> Seq<usize> {
    r.map_values(|g: NumaNode| g.id)
}

/// Total member count over a die list.
pub open spec fn sum_ccd_sizes(r: Seq<Ccd>) -> int
    decreases r.len(),
{
    if r.len() == 0 {
        0
    } else {
        sum_ccd_sizes(r.drop_last()) + r.last().cores@.len()
    }
}

/// Total member count over a NUMA node list.
pub open spec fn sum_numa_sizes(r: Seq<NumaNode>) -> int
    decreases r.len(),
{
    if r.len() == 0 {
        0
    } else {
        sum_numa_sizes(r.drop_last()) + r.last().cores@.len()
    }
}

/// The die groups are exactly the per-key member lists of the CPUs' die
/// pairs, ascending by die id, each non-empty, each owned by the package of
/// its lowest member, with every member a valid CPU id.
pub open spec fn ccds_built(cores: Seq<CpuCore>, r: Seq<Ccd>) -> bool {
    &&& strictly_sorted(ccd_ids(r))
    &&& forall|g: int|
        0 <= g < r.len() ==> (#[trigger] r[g]).cores@ == ids_with_key(ccd_pairs(cores), r[g].id)
    &&& forall|g: int| 0 <= g < r.len() ==> (#[trigger] r[g]).cores@.len() > 0
    &&& forall|i: int|
        0 <= i < cores.len() ==> ccd_ids(r).contains((#[trigger] cores[i]).ccd_id)
    &&& forall|g: int, j: int|
        0 <= g < r.len() && 0 <= j < r[g].cores@.len() ==> #[trigger] r[g].cores@[j]
            < cores.len()
    &&& forall|g: int|
        0 <= g < r.len() ==> (#[trigger] r[g]).package_id == cores[r[g].cores@[0] as int].package_id
}

/// The NUMA groups are exactly the per-key member lists of the CPUs' NUMA
/// pairs, ascending by node id, each non-empty, with every member a valid
/// CPU id and no memory size reported.
pub open spec fn numas_built(cores: Seq<CpuCore>, r: Seq<NumaNode>) -> bool {
    &&& strictly_sorted(numa_ids(r))
    &&& forall|g: int|
        0 <= g < r.len() ==> (#[trigger] r[g]).cores@ == ids_with_key(numa_pairs(cores), r[g].id)
    &&& forall|g: int| 0 <= g < r.len() ==> (#[trigger] r[g]).cores@.len() > 0
    &&& forall|i: int|
        0 <= i < cores.len() ==> numa_ids(r).contains((#[trigger] cores[i]).numa_node)
    &&& forall|g: int, j: int|
        0 <= g < r.len() && 0 <= j < r[g].cores@.len() ==> #[trigger] r[g].cores@[j]
            < cores.len()
    &&& forall|g: int| 0 <= g < r.len() ==> (#[trigger] r[g]).memory_mb is None
}

proof fn lemma_sum_ccd_correspond(pairs: Seq<(usize, usize)>, r: Seq<Ccd>, keys: Seq<usize>)
    requires
        keys.len() == r.len(),
        forall|g: int|
            0 <= g < r.len() ==> (#[trigger] r[g]).id == keys[g] && r[g].cores@ == ids_with_key(
                pairs,
                keys[g],
            ),
    ensures
        sum_ccd_sizes(r) == sum_group_sizes(pairs, keys),
    decreases r.len(),
{
    if r.len() > 0 {
        let r2 = r.drop_last();
        let k2 = keys.drop_last();
        assert forall|g: int|
            0 <= g < r2.len() implies (#[trigger] r2[g]).id == k2[g] && r2[g].cores@
            == ids_with_key(pairs, k2[g]) by {
            assert(r2[g] == r[g]);
        }
        lemma_sum_ccd_correspond(pairs, r2, k2);
        assert(r.last().cores@ == ids_with_key(pairs, keys.last()));
    }
}

proof fn lemma_sum_numa_correspond(pairs: Seq<(usize, usize)>, r: Seq<NumaNode>, keys: Seq<usize>)
    requires
        keys.len() == r.len(),
        forall|g: int|
            0 <= g < r.len() ==> (#[trigger] r[g]).id == keys[g] && r[g].cores@ == ids_with_key(
                pairs,
                keys[g],
            ),
    ensures
        sum_numa_sizes(r) == sum_group_sizes(pairs, keys),
    decreases r.len(),
{
    if r.len() > 0 {
        let r2 = r.drop_last();
        let k2 = keys.drop_last();
        assert forall|g: int|
            0 <= g < r2.len() implies (#[trigger] r2[g]).id == k2[g] && r2[g].cores@
            == ids_with_key(pairs, k2[g]) by {
            assert(r2[g] == r[g]);
        }
        lemma_sum_numa_correspond(pairs, r2, k2);
        assert(r.last().cores@ == ids_with_key(pairs, keys.last()));
    }
}

/// Group the CPUs by die id. The groups partition the CPUs: their sizes sum
/// to the CPU count, so no CPU is dropped or double-counted.
pub fn build_ccds(cores: &Vec<CpuCore>) -> (r: Vec<Ccd>)
    requires
        forall|i: int| 0 <= i < cores@.len() ==> (#[trigger] cores@[i]).id == i,
    ensures
        ccds_built(cores@, r@),
        sum_ccd_sizes(r@) == cores@.len(),
{
    let n = cores.len();
    let mut pairs: Vec<(usize, usize)> = Vec::new();
    let mut i: usize = 0;
    while i < n
        invariant
            n == cores@.len(),
            0 <= i <= n,
            pairs@.len() == i,
            forall|m: int|
                0 <= m < i ==> #[trigger] pairs@[m] == (cores@[m].ccd_id, cores@[m].id),
        decreases n - i,
    {
        pairs.push((cores[i].ccd_id, cores[i].id));
        i = i + 1;
    }
    proof {
        assert(pairs@ =~= ccd_pairs(cores@));
    }
    let keys = collect_sorted_keys(&pairs);
    let nk = keys.len();
    let mut r: Vec<Ccd> = Vec::new();
    let mut g: usize = 0;
    while g < nk
        invariant
            n == cores@.len(),
            nk == keys@.len(),
            0 <= g <= nk,
            pairs@ == ccd_pairs(cores@),
            forall|i2: int| 0 <= i2 < cores@.len() ==> (#[trigger] cores@[i2]).id == i2,
            strictly_sorted(keys@),
            forall|x: usize| #[trigger] keys@.contains(x) ==> exists|m: int|
                0 <= m < pairs@.len() && (#[trigger] pairs@[m]).0 == x,
            r@.len() == g,
            forall|g2: int| 0 <= g2 < g ==> (#[trigger] r@[g2]).id == keys@[g2],
            forall|g2: int|
                0 <= g2 < g ==> (#[trigger] r@[g2]).cores@ == ids_with_key(pairs@, keys@[g2]),
            forall|g2: int| 0 <= g2 < g ==> (#[trigger] r@[g2]).cores@.len() > 0,
            forall|g2: int, j: int|
                0 <= g2 < g && 0 <= j < r@[g2].cores@.len() ==> #[trigger] r@[g2].cores@[j] < n,
            forall|g2: int|
                0 <= g2 < g ==> (#[trigger] r@[g2]).package_id == cores@[r@[g2].cores@[0] as int].package_id,
        decreases nk - g,
    {
        let key = keys[g];
        let members = members_of_key(&pairs, key);
        proof {
            assert(keys@.contains(key));
            let m = choose|m: int| 0 <= m < pairs@.len() && (#[trigger] pairs@[m]).0 == key;
            lemma_ids_with_key_nonempty(pairs@, key, m);
            lemma_ids_with_key_from_pairs(pairs@, key);
            assert forall|j: int| 0 <= j < members@.len() implies #[trigger] members@[j] < n by {
                let i2 = choose|i2: int|
                    0 <= i2 < pairs@.len() && pairs@[i2] == (key, #[trigger] ids_with_key(
                        pairs@,
                        key,
                    )[j]);
                assert(pairs@[i2].1 == cores@[i2].id);
            }
        }
        let pkg = cores[members[0]].package_id;
        r.push(Ccd { id: key, package_id: pkg, cores: members });
        g = g + 1;
    }
    proof {
        assert(ccd_ids(r@) =~= keys@);
        assert forall|i2: int| 0 <= i2 < cores@.len() implies ccd_ids(r@).contains(
            (#[trigger] cores@[i2]).ccd_id,
        ) by {
            assert(pairs@[i2].0 == cores@[i2].ccd_id);
            assert(keys@.contains(pairs@[i2].0));
        }
        lemma_groups_partition(pairs@, keys@);
        lemma_sum_ccd_correspond(pairs@, r@, keys@);
    }
    r
}

/// Group the CPUs by NUMA node id. The groups partition the CPUs.
pub fn build_numa_nodes(cores: &Vec<CpuCore>) -> (r: Vec<NumaNode>)
    requires
        forall|i: int| 0 <= i < cores@.len() ==> (#[trigger] cores@[i]).id == i,
    ensures
        numas_built(cores@, r@),
        sum_numa_sizes(r@) == cores@.len(),
{
    let n = cores.len();
    let mut pairs: Vec<(usize, usize)> = Vec::new();
    let mut i: usize = 0;
    while i < n
        invariant
            n == cores@.len(),
            0 <= i <= n,
            pairs@.len() == i,
            forall|m: int|
                0 <= m < i ==> #[trigger] pairs@[m] == (cores@[m].numa_node, cores@[m].id),
        decreases n - i,
    {
        pairs.push((cores[i].numa_node, cores[i].id));
        i = i + 1;
    }
    proof {
        assert(pairs@ =~= numa_pairs(cores@));
    }
    let keys = collect_sorted_keys(&pairs);
    let nk = keys.len();
    let mut r: Vec<NumaNode> = Vec::new();
    let mut g: usize = 0;
    while g < nk
        invariant
            n == cores@.len(),
            nk == keys@.len(),
            0 <= g <= nk,
            pairs@ == numa_pairs(cores@),
            forall|i2: int| 0 <= i2 < cores@.len() ==> (#[trigger] cores@[i2]).id == i2,
            strictly_sorted(keys@),
            forall|x: usize| #[trigger] keys@.contains(x) ==> exists|m: int|
                0 <= m < pairs@.len() && (#[trigger] pairs@[m]).0 == x,
            r@.len() == g,
            forall|g2: int| 0 <= g2 < g ==> (#[trigger] r@[g2]).id == keys@[g2],
            forall|g2: int|
                0 <= g2 < g ==> (#[trigger] r@[g2]).cores@ == ids_with_key(pairs@, keys@[g2]),
            forall|g2: int| 0 <= g2 < g ==> (#[trigger] r@[g2]).cores@.len() > 0,
            forall|g2: int, j: int|
                0 <= g2 < g && 0 <= j < r@[g2].cores@.len() ==> #[trigger] r@[g2].cores@[j] < n,
            forall|g2: int| 0 <= g2 < g ==> (#[trigger] r@[g2]).memory_mb is None,
        decreases nk - g,
    {
        let key = keys[g];
        let members = members_of_key(&pairs, key);
        proof {
            assert(keys@.contains(key));
            let m = choose|m: int| 0 <= m < pairs@.len() && (#[trigger] pairs@[m]).0 == key;
            lemma_ids_with_key_nonempty(pairs@, key, m);
            lemma_ids_with_key_from_pairs(pairs@, key);
            assert forall|j: int| 0 <= j < members@.len() implies #[trigger] members@[j] < n by {
                let i2 = choose|i2: int|
                    0 <= i2 < pairs@.len() && pairs@[i2] == (key, #[trigger] ids_with_key(
                        pairs@,
                        key,
                    )[j]);
                assert(pairs@[i2].1 == cores@[i2].id);
            }
        }
        r.push(NumaNode { id: key, cores: members, memory_mb: None });
        g = g + 1;
    }
    proof {
        assert(numa_ids(r@) =~= keys@);
        assert forall|i2: int| 0 <= i2 < cores@.len() implies numa_ids(r@).contains(
            (#[trigger] cores@[i2]).numa_node,
        ) by {
            assert(pairs@[i2].0 == cores@[i2].numa_node);
            assert(keys@.contains(pairs@[i2].0));
        }
        lemma_groups_partition(pairs@, keys@);
        lemma_sum_numa_correspond(pairs@, r@, keys@);
    }
    r
}


/// Classify the NUMA-per-socket mode from the NUMA-node and package counts.
/// Zero packages is a defensive case mapped to `Unknown`.
pub fn detect_nps_mode(numa_count: usize, package_count: usize) -> (r: NpsMode)
    ensures
        r == nps_mode_of(numa_count as int, package_count as int),
{
    if package_count == 0 {
        return NpsMode::Unknown;
    }
    let nodes_per_socket = numa_count / package_count;
    match nodes_per_socket {
        0 | 1 => NpsMode::Nps1,
        2 => NpsMode::Nps2,
        4 => NpsMode::Nps4,
        _ => NpsMode::Unknown,
    }
}

/// The ids of the NUMA nodes whose id lies in `[lo, hi)`, in input order.
pub open spec fn node_ids_in_range(nodes: Seq<NumaNode>, lo: int, hi: int) -> Seq<usize>
    decreases nodes.len(),
{
    if nodes.len() == 0 {
        Seq::empty()
    } else {
        let rest = node_ids_in_range(nodes.drop_last(), lo, hi);
        if lo <= nodes.last().id < hi {
            rest.push(nodes.last().id)
        } else {
            rest
        }
    }
}

/// Some NUMA node with id in `[lo, hi)` lists `x` as a member.
pub open spec fn block_has_member(nodes: Seq<NumaNode>, lo: int, hi: int, x: usize) -> bool {
    exists|i: int|
        0 <= i < nodes.len() && lo <= (#[trigger] nodes[i]).id < hi && nodes[i].cores@.contains(x)
}

/// The ids of all NUMA nodes, in input order.
pub open spec fn all_node_ids(nodes: Seq<NumaNode>) -> Seq<usize> {
    nodes.map_values(|n: NumaNode| n.id)
}

/// All member lists concatenated, in input order.
pub open spec fn all_node_members(nodes: Seq<NumaNode>) -> Seq<usize>
    decreases nodes.len(),
{
    if nodes.len() == 0 {
        Seq::empty()
    } else {
        all_node_members(nodes.drop_last()) + nodes.last().cores@
    }
}

/// What `build_nps_nodes` produces. With no packages or no NUMA nodes (or
/// fewer nodes than packages), a single synthetic node collects everything
/// as-is; otherwise the ascending NUMA-id space is cut into `packages`
/// contiguous blocks of `nodes / packages` ids each, and each block's
/// members are merged, deduplicated and sorted.
pub open spec fn nps_built(nodes: Seq<NumaNode>, packages: usize, r: Seq<NpsNode>) -> bool {
    if packages == 0 || nodes.len() == 0 || nodes.len() < packages {
        &&& r.len() == 1
        &&& r[0].id == 0
        &&& r[0].numa_nodes@ == all_node_ids(nodes)
        &&& r[0].cores@ == all_node_members(nodes)
    } else {
        let nps = nodes.len() as int / packages as int;
        &&& r.len() == packages
        &&& forall|s: int| 0 <= s < r.len() ==> (#[trigger] r[s]).id == s
        &&& forall|s: int|
            0 <= s < r.len() ==> (#[trigger] r[s]).numa_nodes@ == node_ids_in_range(
                nodes,
                s * nps,
                s * nps + nps,
            )
        &&& forall|s: int| 0 <= s < r.len() ==> strictly_sorted((#[trigger] r[s]).cores@)
        &&& forall|s: int, x: usize|
            0 <= s < r.len() ==> ((#[trigger] r[s].cores@.contains(x)) <==> block_has_member(
                nodes,
                s * nps,
                s * nps + nps,
                x,
            ))
    }
}

/// Collect every node id and every member, in input order (the synthetic
/// single-group fallback).
fn collect_all_nodes(numa_nodes: &Vec<NumaNode>) -> (r: (Vec<usize>, Vec<usize>))
    ensures
        r.0@ == all_node_ids(numa_nodes@),
        r.1@ == all_node_members(numa_nodes@),
{
    let n = numa_nodes.len();
    let mut ids: Vec<usize> = Vec::new();
    let mut cores: Vec<usize> = Vec::new();
    let mut i: usize = 0;
    while i < n
        invariant
            n == numa_nodes@.len(),
            0 <= i <= n,
            ids@ =~= all_node_ids(numa_nodes@.take(i as int)),
            cores@ =~= all_node_members(numa_nodes@.take(i as int)),
        decreases n - i,
    {
        proof {
            assert(numa_nodes@.take(i + 1 as int).drop_last() =~= numa_nodes@.take(i as int));
            assert(numa_nodes@.take(i + 1 as int).last() == numa_nodes@[i as int]);
        }
        ids.push(numa_nodes[i].id);
        let ghost start_cores = cores@;
        let mc = numa_nodes[i].cores.len();
        let mut j: usize = 0;
        while j < mc
            invariant
                n == numa_nodes@.len(),
                i < n,
                mc == numa_nodes@[i as int].cores@.len(),
                0 <= j <= mc,
                cores@ =~= start_cores + numa_nodes@[i as int].cores@.take(j as int),
            decreases mc - j,
        {
            let v = numa_nodes[i].cores[j];
            cores.push(v);
            proof {
                assert(numa_nodes@[i as int].cores@.take(j + 1 as int) =~= numa_nodes@[
                    i as int
                ].cores@.take(j as int).push(numa_nodes@[i as int].cores@[j as int]));
            }
            j = j + 1;
        }
        proof {
            assert(numa_nodes@[i as int].cores@.take(mc as int) =~= numa_nodes@[i as int].cores@);
            assert(all_node_ids(numa_nodes@.take(i + 1 as int)) =~= all_node_ids(
                numa_nodes@.take(i as int),
            ).push(numa_nodes@[i as int].id));
        }
        i = i + 1;
    }
    proof {
        assert(numa_nodes@.take(n as int) =~= numa_nodes@);
    }
    (ids, cores)
}

/// Partition the NUMA nodes into NUMA-per-socket nodes: one contiguous
/// block of the node-id space per package, or one synthetic node when the
/// counts do not divide.
pub fn build_nps_nodes(numa_nodes: &Vec<NumaNode>, packages: usize) -> (r: Vec<NpsNode>)
    ensures
        nps_built(numa_nodes@, packages, r@),
{
    let n = numa_nodes.len();
    if packages == 0 || n == 0 || n < packages {
        let (ids, cores) = collect_all_nodes(numa_nodes);
        let mut r: Vec<NpsNode> = Vec::new();
        r.push(NpsNode { id: 0, numa_nodes: ids, cores });
        return r;
    }
    let nps = n / packages;
    proof {
        lemma_div_is_ordered(packages as int, n as int, packages as int);
        lemma_div_by_self(packages as int);
        assert(nps >= 1);
        lemma_fundamental_div_mod(n as int, packages as int);
        lemma_mod_division_less_than_divisor(n as int, packages as int);
        assert((n as int % packages as int) >= 0);
        assert(packages * nps <= n);
    }
    let mut r: Vec<NpsNode> = Vec::new();
    let mut socket: usize = 0;
    while socket < packages
        invariant
            n == numa_nodes@.len(),
            packages >= 1,
            n >= packages,
            nps == n as int / packages as int,
            nps >= 1,
            packages * nps <= n,
            r@.len() == socket,
            0 <= socket <= packages,
            forall|s: int| 0 <= s < socket ==> (#[trigger] r@[s]).id == s,
            forall|s: int|
                0 <= s < socket ==> (#[trigger] r@[s]).numa_nodes@ == node_ids_in_range(
                    numa_nodes@,
                    s * nps as int,
                    s * nps as int + nps,
                ),
            forall|s: int| 0 <= s < socket ==> strictly_sorted((#[trigger] r@[s]).cores@),
            forall|s: int, x: usize|
                0 <= s < socket ==> ((#[trigger] r@[s].cores@.contains(x)) <==> block_has_member(
                    numa_nodes@,
                    s * nps as int,
                    s * nps as int + nps,
                    x,
                )),
        decreases packages - socket,
    {
        proof {
            lemma_mul_inequality(socket as int + 1, packages as int, nps as int);
            lemma_mul_inequality(socket as int, socket as int + 1, nps as int);
            lemma_mul_is_distributive_add_other_way(nps as int, socket as int, 1);
            assert((socket as int + 1) * nps as int == socket as int * nps as int + nps as int);
        }
        let start = socket * nps;
        let end = start + nps;
        let mut ids: Vec<usize> = Vec::new();
        let mut cores: Vec<usize> = Vec::new();
        let mut i: usize = 0;
        while i < n
            invariant
                n == numa_nodes@.len(),
                0 <= i <= n,
                start == socket * nps,
                end == start + nps,
                ids@ == node_ids_in_range(numa_nodes@.take(i as int), start as int, end as int),
                strictly_sorted(cores@),
                forall|x: usize|
                    (#[trigger] cores@.contains(x)) <==> block_has_member(
                        numa_nodes@.take(i as int),
                        start as int,
                        end as int,
                        x,
                    ),
            decreases n - i,
        {
            let ghost prev = numa_nodes@.take(i as int);
            proof {
                assert(numa_nodes@.take(i + 1 as int).drop_last() =~= prev);
                assert(numa_nodes@.take(i + 1 as int).last() == numa_nodes@[i as int]);
            }
            let node_id = numa_nodes[i].id;
            if node_id >= start && node_id < end {
                ids.push(node_id);
                let ghost block_before = prev;
                let mc = numa_nodes[i].cores.len();
                let mut j: usize = 0;
                while j < mc
                    invariant
                        n == numa_nodes@.len(),
                        i < n,
                        mc == numa_nodes@[i as int].cores@.len(),
                        0 <= j <= mc,
                        start == socket * nps,
                        end == start + nps,
                        strictly_sorted(cores@),
                        forall|x: usize|
                            (#[trigger] cores@.contains(x)) <==> (block_has_member(
                                block_before,
                                start as int,
                                end as int,
                                x,
                            ) || numa_nodes@[i as int].cores@.take(j as int).contains(x)),
                    decreases mc - j,
                {
                    let v = numa_nodes[i].cores[j];
                    insert_sorted_unique(&mut cores, v);
                    proof {
                        let mseq = numa_nodes@[i as int].cores@;
                        assert forall|x: usize|
                            mseq.take(j + 1 as int).contains(x) implies (mseq.take(
                            j as int,
                        ).contains(x) || x == mseq[j as int]) by {
                            let m = choose|m: int|
                                0 <= m < j + 1 && #[trigger] mseq.take(j + 1 as int)[m] == x;
                            if m < j {
                                assert(mseq.take(j as int)[m] == x);
                            }
                        }
                        assert forall|x: usize|
                            (mseq.take(j as int).contains(x) || x == mseq[j as int]) implies
                            mseq.take(j + 1 as int).contains(x) by {
                            if mseq.take(j as int).contains(x) {
                                let m = choose|m: int|
                                    0 <= m < j && #[trigger] mseq.take(j as int)[m] == x;
                                assert(mseq.take(j + 1 as int)[m] == x);
                            } else {
                                assert(mseq.take(j + 1 as int)[j as int] == x);
                            }
                        }
                        assert(mseq.take(j + 1 as int)[j as int] == mseq[j as int]);
                        assert(mseq.take(j + 1 as int).contains(mseq[j as int]));
                    }
                    j = j + 1;
                }
                proof {
                    assert(numa_nodes@[i as int].cores@.take(mc as int) =~= numa_nodes@[
                        i as int
                    ].cores@);
                }
            }
            proof {
                let cur = numa_nodes@.take(i + 1 as int);
                assert forall|x: usize|
                    (#[trigger] cores@.contains(x)) <==> block_has_member(
                    cur,
                    start as int,
                    end as int,
                    x,
                ) by {
                    if block_has_member(cur, start as int, end as int, x) {
                        let m = choose|m: int|
                            0 <= m < cur.len() && start <= (#[trigger] cur[m]).id < end
                                && cur[m].cores@.contains(x);
                        if m < i {
                            assert(prev[m] == cur[m]);
                            assert(block_has_member(prev, start as int, end as int, x));
                        }
                    }
                    if cores@.contains(x) {
                        if block_has_member(prev, start as int, end as int, x) {
                            let m = choose|m: int|
                                0 <= m < prev.len() && start <= (#[trigger] prev[m]).id < end
                                    && prev[m].cores@.contains(x);
                            assert(cur[m] == prev[m]);
                            assert(block_has_member(cur, start as int, end as int, x));
                        } else {
                            assert(cur[i as int].cores@.contains(x));
                            assert(block_has_member(cur, start as int, end as int, x));
                        }
                    }
                }
            }
            i = i + 1;
        }
        proof {
            assert(numa_nodes@.take(n as int) =~= numa_nodes@);
        }
        r.push(NpsNode { id: socket, numa_nodes: ids, cores });
        socket = socket + 1;
    }
    r
}


/// The classification of the NUMA-per-socket mode from the NUMA-node and
/// package counts: nodes-per-socket of 0 or 1 is NPS1, 2 is NPS2, 4 is
/// NPS4; zero packages or any other ratio is unknown.
pub open spec fn nps_mode_of(numa_count: int, package_count: int) -> NpsMode {
    if package_count <= 0 {
        NpsMode::Unknown
    } else {
        let nodes_per_socket = numa_count / package_count;
        if nodes_per_socket == 0 || nodes_per_socket == 1 {
            NpsMode::Nps1
        } else if nodes_per_socket == 2 {
            NpsMode::Nps2
        } else if nodes_per_socket == 4 {
            NpsMode::Nps4
        } else {
            NpsMode::Unknown
        }
    }
}

/// Every entry of the concatenated member list comes from some node.
proof fn lemma_all_members_from_nodes(nodes: Seq<NumaNode>)
    ensures
        forall|j: int| 0 <= j < all_node_members(nodes).len() ==> exists|i: int|
            0 <= i < nodes.len() && (#[trigger] nodes[i]).cores@.contains(
                #[trigger] all_node_members(nodes)[j],
            ),
    decreases nodes.len(),
{
    if nodes.len() > 0 {
        let prefix = nodes.drop_last();
        lemma_all_members_from_nodes(prefix);
        assert forall|j: int| 0 <= j < all_node_members(nodes).len() implies exists|i: int|
            0 <= i < nodes.len() && (#[trigger] nodes[i]).cores@.contains(
                #[trigger] all_node_members(nodes)[j],
            ) by {
            let whole = all_node_members(nodes);
            if j < all_node_members(prefix).len() {
                let i = choose|i: int|
                    0 <= i < prefix.len() && (#[trigger] prefix[i]).cores@.contains(
                        all_node_members(prefix)[j],
                    );
                assert(nodes[i] == prefix[i]);
                assert(nodes[i].cores@.contains(whole[j]));
            } else {
                let k = j - all_node_members(prefix).len();
                assert(whole[j] == nodes.last().cores@[k]);
                assert(nodes[nodes.len() - 1].cores@.contains(whole[j]));
            }
        }
    }
}

/// Infer the full topology from the raw logical CPUs and the package count.
///
/// The raw CPUs must carry unique ids that are dense from 0 (the data
/// model's invariant) and no sibling assignments yet. The result is
/// well-formed; its dies and NUMA nodes each partition the CPUs (their
/// sizes sum to the thread count), SMT siblings are symmetric wherever at
/// most two CPUs share a physical core, and mode and generation follow
/// their classification formulas.
pub fn build_topology(raw: &Vec<CpuCore>, packages: usize) -> (r: ZenTopology)
    requires
        ids_dense(raw@),
        forall|i: int| 0 <= i < raw@.len() ==> (#[trigger] raw@[i]).smt_sibling is None,
    ensures
        r.wf(),
        r.packages == packages,
        r.total_threads == raw@.len(),
        r.cpu_model@ == Seq::<char>::empty(),
        forall|k: int| 0 <= k < r.cores@.len() ==> (#[trigger] r.cores@[k]).id == k,
        forall|k: int|
            0 <= k < r.cores@.len() ==> raw@.contains(clear_sibling(#[trigger] r.cores@[k])),
        siblings_assigned(r.cores@),
        r.smt_enabled <==> exists|i: int|
            0 <= i < r.cores@.len() && #[trigger] has_classmate(r.cores@, i),
        r.total_cores == class_reps(r.cores@),
        ccds_built(r.cores@, r.ccds@),
        sum_ccd_sizes(r.ccds@) == r.total_threads,
        numas_built(r.cores@, r.numa_nodes@),
        sum_numa_sizes(r.numa_nodes@) == r.total_threads,
        r.nps_mode == nps_mode_of(r.numa_nodes@.len() as int, packages as int),
        nps_built(r.numa_nodes@, packages, r.nps_nodes@),
        r.generation == zen_generation_of(r.ccds@.len() as int, r.total_cores as int),
{
    let n = raw.len();
    let placed = place_by_id(raw);
    let (cores, smt_enabled) = assign_siblings(&placed);
    proof {
        assert forall|a: int, b: int|
            0 <= a < n && 0 <= b < n implies same_class(cores@[a], cores@[b]) == same_class(
            placed@[a],
            placed@[b],
        ) by {
            assert(clear_sibling(cores@[a]) == clear_sibling(placed@[a]));
            assert(clear_sibling(cores@[b]) == clear_sibling(placed@[b]));
        }
        assert forall|i: int|
            0 <= i < n implies #[trigger] has_classmate(cores@, i) == has_classmate(
            placed@,
            i,
        ) by {
            if has_classmate(cores@, i) {
                let j = choose|j: int|
                    0 <= j < cores@.len() && j != i && same_class(#[trigger] cores@[j], cores@[i]);
                assert(same_class(placed@[j], placed@[i]));
            }
            if has_classmate(placed@, i) {
                let j = choose|j: int|
                    0 <= j < placed@.len() && j != i && same_class(
                        #[trigger] placed@[j],
                        placed@[i],
                    );
                assert(same_class(cores@[j], cores@[i]));
            }
        }
        assert forall|k: int| 0 <= k < n implies raw@.contains(
            clear_sibling(#[trigger] cores@[k]),
        ) by {
            assert(clear_sibling(cores@[k]) == clear_sibling(placed@[k]));
            assert(placed@[k].smt_sibling is None) by {
                let m = choose|m: int| 0 <= m < raw@.len() && raw@[m] == placed@[k];
                assert(raw@[m].smt_sibling is None);
            }
            assert(clear_sibling(placed@[k]) == placed@[k]);
        }
        assert forall|k: int| 0 <= k < n implies (#[trigger] cores@[k]).id == k by {
            assert(clear_sibling(cores@[k]) == clear_sibling(placed@[k]));
        }
    }
    let total_cores = count_physical_cores(&cores);
    let ccds = build_ccds(&cores);
    let numa_nodes = build_numa_nodes(&cores);
    let nps_mode = detect_nps_mode(numa_nodes.len(), packages);
    let nps_nodes = build_nps_nodes(&numa_nodes, packages);
    let mut t = ZenTopology {
        cpu_model: String::new(),
        generation: ZenGeneration::Unknown,
        nps_mode,
        cores,
        ccds,
        numa_nodes,
        nps_nodes,
        packages,
        total_cores,
        total_threads: n,
        smt_enabled,
    };
    let generation = detect_zen_generation(&t);
    t.generation = generation;
    proof {
        assert(t.members_in_range()) by {
            assert forall|g: int, j: int|
                0 <= g < t.nps_nodes@.len() && 0 <= j < t.nps_nodes@[g].cores@.len()
                implies #[trigger] t.nps_nodes@[g].cores@[j] < t.cores@.len() by {
                let x = t.nps_nodes@[g].cores@[j];
                assert(t.nps_nodes@[g].cores@.contains(x));
                if packages == 0 || t.numa_nodes@.len() == 0 || t.numa_nodes@.len() < packages {
                    lemma_all_members_from_nodes(t.numa_nodes@);
                    let i = choose|i: int|
                        0 <= i < t.numa_nodes@.len() && (#[trigger] t.numa_nodes@[i]).cores@.contains(
                            all_node_members(t.numa_nodes@)[j],
                        );
                    let m = choose|m: int|
                        0 <= m < t.numa_nodes@[i].cores@.len() && t.numa_nodes@[i].cores@[m] == x;
                    assert(t.numa_nodes@[i].cores@[m] < t.cores@.len());
                } else {
                    let nps = t.numa_nodes@.len() as int / packages as int;
                    assert(block_has_member(t.numa_nodes@, g * nps, g * nps + nps, x));
                    let i = choose|i: int|
                        0 <= i < t.numa_nodes@.len() && g * nps <= (#[trigger] t.numa_nodes@[i]).id
                            < g * nps + nps && t.numa_nodes@[i].cores@.contains(x);
                    let m = choose|m: int|
                        0 <= m < t.numa_nodes@[i].cores@.len() && t.numa_nodes@[i].cores@[m] == x;
                    assert(t.numa_nodes@[i].cores@[m] < t.cores@.len());
                }
            }
        }
    }
    t
}


} // verus!
