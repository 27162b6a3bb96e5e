use vstd::prelude::*;
use crate::topology::{Ccd, CpuCore, NpsNode, NumaNode, ZenTopology};
use crate::stats::{
    core_usage_wf, max_centi_of, mean_centi_of, min_centi_of, usages_wf, CoreUsage, GroupUsage,
    SystemStats,
};
use crate::fmt::{append_decimal, dec_chars};

verus! {

/// Per-view aggregation: select the groups of the chosen dimension, filter
/// their members by the SMT setting, look each member's sample up, and fold
/// the samples into one `GroupUsage` per group.

/// A CPU shown when SMT display is off: it has no sibling, or its id is the
/// smaller of the pair.
pub open spec fn lower_sibling(c: CpuCore) -> bool {
    match c.smt_sibling {
        Option::None => true,
        Option::Some(s) => c.id < s,
    }
}

/// The CPUs the core view shows under the SMT setting.
pub open spec fn smt_filtered(s: Seq<CpuCore>, show_smt: bool) -> Seq<CpuCore>
    decreases s.len(),
{
    if s.len() == 0 {
        Seq::empty()
    } else {
        let rest = smt_filtered(s.drop_last(), show_smt);
        if show_smt || lower_sibling(s.last()) {
            rest.push(s.last())
        } else {
            rest
        }
    }
}

/// Select the CPUs to show: all of them, or only the lower sibling of each
/// physical core when SMT display is off.
pub fn filter_cores(topology: &ZenTopology, show_smt: bool) -> (r: Vec<CpuCore>)
    ensures
        r@ == smt_filtered(topology.cores@, show_smt),
{
    let n = topology.cores.len();
    let mut r: Vec<CpuCore> = Vec::new();
    let mut i: usize = 0;
    while i < n
        invariant
            n == topology.cores@.len(),
            0 <= i <= n,
            r@ == smt_filtered(topology.cores@.take(i as int), show_smt),
        decreases n - i,
    {
        proof {
            assert(topology.cores@.take(i + 1 as int).drop_last() =~= topology.cores@.take(
                i as int,
            ));
            assert(topology.cores@.take(i + 1 as int).last() == topology.cores@[i as int]);
        }
        let c = topology.cores[i];
        let keep = show_smt || match c.smt_sibling {
            Option::None => true,
            Option::Some(s) => c.id < s,
        };
        if keep {
            r.push(c);
        }
        i = i + 1;
    }
    proof {
        assert(topology.cores@.take(n as int) =~= topology.cores@);
    }
    r
}

/// Whether a group member (given by id) is shown: always with SMT display
/// on; otherwise by looking its CPU up, ids out of range staying shown.
pub open spec fn member_shown(cores: Seq<CpuCore>, id: usize, show_smt: bool) -> bool {
    show_smt || id >= cores.len() || lower_sibling(cores[id as int])
}

/// The member ids that remain under the SMT setting.
pub open spec fn members_filtered(members: Seq<usize>, cores: Seq<CpuCore>, show_smt: bool) -> Seq<
    usize,
>
    decreases members.len(),
{
    if members.len() == 0 {
        Seq::empty()
    } else {
        let rest = members_filtered(members.drop_last(), cores, show_smt);
        if member_shown(cores, members.last(), show_smt) {
            rest.push(members.last())
        } else {
            rest
        }
    }
}

/// The samples of the given member ids, in order, ids beyond the snapshot
/// dropped; each sample carries the member id it was looked up by.
pub open spec fn member_usages_of(members: Seq<usize>, samples: Seq<CoreUsage>) -> Seq<CoreUsage>
    decreases members.len(),
{
    if members.len() == 0 {
        Seq::empty()
    } else {
        let rest = member_usages_of(members.drop_last(), samples);
        let id = members.last();
        if id < samples.len() {
            rest.push(
                CoreUsage {
                    core_id: id,
                    usage_centi: samples[id as int].usage_centi,
                    frequency_mhz: samples[id as int].frequency_mhz,
                },
            )
        } else {
            rest
        }
    }
}

/// Looked-up samples stay valid percentages.
proof fn lemma_member_usages_wf(members: Seq<usize>, samples: Seq<CoreUsage>)
    requires
        usages_wf(samples),
    ensures
        usages_wf(member_usages_of(members, samples)),
    decreases members.len(),
{
    if members.len() > 0 {
        lemma_member_usages_wf(members.drop_last(), samples);
        let whole = member_usages_of(members, samples);
        let rest = member_usages_of(members.drop_last(), samples);
        assert forall|i: int| 0 <= i < whole.len() implies core_usage_wf(#[trigger] whole[i]) by {
            if i < rest.len() {
                assert(whole[i] == rest[i]);
            }
        }
    }
}

/// Filter the members by the SMT setting and look their samples up.
fn collect_usages(
    members: &Vec<usize>,
    cores: &Vec<CpuCore>,
    samples: &Vec<CoreUsage>,
    show_smt: bool,
) -> (r: Vec<CoreUsage>)
    ensures
        r@ == member_usages_of(members_filtered(members@, cores@, show_smt), samples@),
{
    let n = members.len();
    let mut r: Vec<CoreUsage> = Vec::new();
    let mut i: usize = 0;
    while i < n
        invariant
            n == members@.len(),
            0 <= i <= n,
            r@ == member_usages_of(
                members_filtered(members@.take(i as int), cores@, show_smt),
                samples@,
            ),
        decreases n - i,
    {
        proof {
            assert(members@.take(i + 1 as int).drop_last() =~= members@.take(i as int));
            assert(members@.take(i + 1 as int).last() == members@[i as int]);
            let fprev = members_filtered(members@.take(i as int), cores@, show_smt);
            if member_shown(cores@, members@[i as int], show_smt) {
                assert(members_filtered(members@.take(i + 1 as int), cores@, show_smt) == fprev.push(
                    members@[i as int],
                ));
                assert(fprev.push(members@[i as int]).drop_last() =~= fprev);
            }
        }
        let id = members[i];
        let shown = show_smt || {
            if id < cores.len() {
                match cores[id].smt_sibling {
                    Option::None => true,
                    Option::Some(s) => cores[id].id < s,
                }
            } else {
                true
            }
        };
        if shown {
            if id < samples.len() {
                r.push(
                    CoreUsage {
                        core_id: id,
                        usage_centi: samples[id].usage_centi,
                        frequency_mhz: samples[id].frequency_mhz,
                    },
                );
            }
        }
        i = i + 1;
    }
    proof {
        assert(members@.take(n as int) =~= members@);
    }
    r
}

/// What the aggregation promises of one built `GroupUsage`.
pub open spec fn usage_matches(g: GroupUsage, name: Seq<char>, id: int, usages: Seq<CoreUsage>) -> bool {
    &&& g.name@ == name
    &&& g.id == id
    &&& g.core_count == usages.len()
    &&& g.member_usages@ == usages
    &&& g.mean_centi == mean_centi_of(usages)
    &&& g.min_centi == min_centi_of(usages)
    &&& g.max_centi == max_centi_of(usages)
}

/// The display name of a die group.
pub open spec fn ccd_name_spec(id: int) -> Seq<char> {
    "CCD "@ + dec_chars(id)
}

fn ccd_name(id: usize) -> (s: String)
    ensures
        s@ == ccd_name_spec(id as int),
{
    let mut s = String::from_str("CCD ");
    append_decimal(&mut s, id);
    s
}

/// The display name of a NUMA node group; the detection reports no memory
/// size, so no suffix is added here.
pub open spec fn numa_name_spec(id: int) -> Seq<char> {
    "NUMA "@ + dec_chars(id)
}

fn numa_name(id: usize) -> (s: String)
    ensures
        s@ == numa_name_spec(id as int),
{
    let mut s = String::from_str("NUMA ");
    append_decimal(&mut s, id);
    s
}

/// The NUMA node ids of an NPS group, joined as a bracketed list.
pub open spec fn joined_ids(ids: Seq<usize>, upto: int) -> Seq<char>
    decreases upto,
{
    if upto <= 0 {
        Seq::empty()
    } else if upto == 1 {
        dec_chars(ids[0] as int)
    } else {
        joined_ids(ids, upto - 1) + ", "@ + dec_chars(ids[upto - 1] as int)
    }
}

/// The display name of an NPS group: its id and its NUMA node list.
pub open spec fn nps_name_spec(id: int, ids: Seq<usize>) -> Seq<char> {
    "NPS "@ + dec_chars(id) + " (NUMA: ["@ + joined_ids(ids, ids.len() as int) + "])"@
}

fn nps_name(id: usize, ids: &Vec<usize>) -> (s: String)
    ensures
        s@ == nps_name_spec(id as int, ids@),
{
    let mut s = String::from_str("NPS ");
    append_decimal(&mut s, id);
    s.append(" (NUMA: [");
    let n = ids.len();
    let mut i: usize = 0;
    while i < n
        invariant
            n == ids@.len(),
            0 <= i <= n,
            s@ == "NPS "@ + dec_chars(id as int) + " (NUMA: ["@ + joined_ids(ids@, i as int),
        decreases n - i,
    {
        if i > 0 {
            s.append(", ");
        }
        append_decimal(&mut s, ids[i]);
        proof {
            assert(s@ =~= "NPS "@ + dec_chars(id as int) + " (NUMA: ["@ + joined_ids(
                ids@,
                i + 1 as int,
            ));
        }
        i = i + 1;
    }
    s.append("])");
    proof {
        assert(s@ =~= nps_name_spec(id as int, ids@));
    }
    s
}

/// The dies shown under a socket filter: all, or those owned by the socket.
pub open spec fn ccds_selected(ccds: Seq<Ccd>, socket: Option<usize>) -> Seq<Ccd>
    decreases ccds.len(),
{
    if ccds.len() == 0 {
        Seq::empty()
    } else {
        let rest = ccds_selected(ccds.drop_last(), socket);
        let keep = match socket {
            Option::None => true,
            Option::Some(s) => ccds.last().package_id == s,
        };
        if keep {
            rest.push(ccds.last())
        } else {
            rest
        }
    }
}

/// Build one `GroupUsage` per die, in ascending die order, honoring the
/// socket filter and the SMT setting.
pub fn ccd_group_usages(
    topology: &ZenTopology,
    stats: &SystemStats,
    show_smt: bool,
    socket_filter: Option<usize>,
) -> (r: Vec<GroupUsage>)
    requires
        usages_wf(stats.core_usages@),
    ensures
        ({
            let sel = ccds_selected(topology.ccds@, socket_filter);
            &&& r@.len() == sel.len()
            &&& forall|g: int|
                0 <= g < sel.len() ==> usage_matches(
                    #[trigger] r@[g],
                    ccd_name_spec(sel[g].id as int),
                    sel[g].id as int,
                    member_usages_of(
                        members_filtered(sel[g].cores@, topology.cores@, show_smt),
                        stats.core_usages@,
                    ),
                )
        }),
{
    let n = topology.ccds.len();
    let mut r: Vec<GroupUsage> = Vec::new();
    let mut i: usize = 0;
    while i < n
        invariant
            n == topology.ccds@.len(),
            0 <= i <= n,
            usages_wf(stats.core_usages@),
            ({
                let sel = ccds_selected(topology.ccds@.take(i as int), socket_filter);
                &&& r@.len() == sel.len()
                &&& forall|g: int|
                    0 <= g < sel.len() ==> usage_matches(
                        #[trigger] r@[g],
                        ccd_name_spec(sel[g].id as int),
                        sel[g].id as int,
                        member_usages_of(
                            members_filtered(sel[g].cores@, topology.cores@, show_smt),
                            stats.core_usages@,
                        ),
                    )
            }),
        decreases n - i,
    {
        proof {
            assert(topology.ccds@.take(i + 1 as int).drop_last() =~= topology.ccds@.take(i as int));
            assert(topology.ccds@.take(i + 1 as int).last() == topology.ccds@[i as int]);
        }
        let ccd = &topology.ccds[i];
        let keep = match socket_filter {
            Option::None => true,
            Option::Some(s) => ccd.package_id == s,
        };
        if keep {
            let usages = collect_usages(&ccd.cores, &topology.cores, &stats.core_usages, show_smt);
            proof {
                lemma_member_usages_wf(
                    members_filtered(ccd.cores@, topology.cores@, show_smt),
                    stats.core_usages@,
                );
            }
            let gu = GroupUsage::from_cores(ccd_name(ccd.id), ccd.id, &usages);
            r.push(gu);
        }
        i = i + 1;
    }
    proof {
        assert(topology.ccds@.take(n as int) =~= topology.ccds@);
    }
    r
}

/// The NUMA nodes shown under a socket filter: all, or those whose lowest
/// member CPU belongs to the socket.
pub open spec fn numas_selected(
    nodes: Seq<NumaNode>,
    cores: Seq<CpuCore>,
    socket: Option<usize>,
) -> Seq<NumaNode>
    decreases nodes.len(),
{
    if nodes.len() == 0 {
        Seq::empty()
    } else {
        let rest = numas_selected(nodes.drop_last(), cores, socket);
        let keep = match socket {
            Option::None => true,
            Option::Some(s) => {
                &&& nodes.last().cores@.len() > 0
                &&& nodes.last().cores@[0] < cores.len()
                &&& cores[nodes.last().cores@[0] as int].package_id == s
            },
        };
        if keep {
            rest.push(nodes.last())
        } else {
            rest
        }
    }
}

/// Build one `GroupUsage` per NUMA node, honoring the socket filter (by
/// the package of the node's lowest member) and the SMT setting.
pub fn numa_group_usages(
    topology: &ZenTopology,
    stats: &SystemStats,
    show_smt: bool,
    socket_filter: Option<usize>,
) -> (r: Vec<GroupUsage>)
    requires
        usages_wf(stats.core_usages@),
    ensures
        ({
            let sel = numas_selected(topology.numa_nodes@, topology.cores@, socket_filter);
            &&& r@.len() == sel.len()
            &&& forall|g: int|
                0 <= g < sel.len() ==> usage_matches(
                    #[trigger] r@[g],
                    numa_name_spec(sel[g].id as int),
                    sel[g].id as int,
                    member_usages_of(
                        members_filtered(sel[g].cores@, topology.cores@, show_smt),
                        stats.core_usages@,
                    ),
                )
        }),
{
    let n = topology.numa_nodes.len();
    let mut r: Vec<GroupUsage> = Vec::new();
    let mut i: usize = 0;
    while i < n
        invariant
            n == topology.numa_nodes@.len(),
            0 <= i <= n,
            usages_wf(stats.core_usages@),
            ({
                let sel = numas_selected(
                    topology.numa_nodes@.take(i as int),
                    topology.cores@,
                    socket_filter,
                );
                &&& r@.len() == sel.len()
                &&& forall|g: int|
                    0 <= g < sel.len() ==> usage_matches(
                        #[trigger] r@[g],
                        numa_name_spec(sel[g].id as int),
                        sel[g].id as int,
                        member_usages_of(
                            members_filtered(sel[g].cores@, topology.cores@, show_smt),
                            stats.core_usages@,
                        ),
                    )
            }),
        decreases n - i,
    {
        proof {
            assert(topology.numa_nodes@.take(i + 1 as int).drop_last() =~= topology.numa_nodes@
                .take(i as int));
            assert(topology.numa_nodes@.take(i + 1 as int).last() == topology.numa_nodes@[
                i as int
            ]);
        }
        let node = &topology.numa_nodes[i];
        let keep = match socket_filter {
            Option::None => true,
            Option::Some(s) => {
                if node.cores.len() > 0 {
                    let first = node.cores[0];
                    if first < topology.cores.len() {
                        topology.cores[first].package_id == s
                    } else {
                        false
                    }
                } else {
                    false
                }
            },
        };
        if keep {
            let usages = collect_usages(&node.cores, &topology.cores, &stats.core_usages, show_smt);
            proof {
                lemma_member_usages_wf(
                    members_filtered(node.cores@, topology.cores@, show_smt),
                    stats.core_usages@,
                );
            }
            let gu = GroupUsage::from_cores(numa_name(node.id), node.id, &usages);
            r.push(gu);
        }
        i = i + 1;
    }
    proof {
        assert(topology.numa_nodes@.take(n as int) =~= topology.numa_nodes@);
    }
    r
}

/// The NPS nodes shown under a socket filter, by the package of each
/// node's lowest member CPU.
pub open spec fn nps_selected(
    nodes: Seq<NpsNode>,
    cores: Seq<CpuCore>,
    socket: Option<usize>,
) -> Seq<NpsNode>
    decreases nodes.len(),
{
    if nodes.len() == 0 {
        Seq::empty()
    } else {
        let rest = nps_selected(nodes.drop_last(), cores, socket);
        let keep = match socket {
            Option::None => true,
            Option::Some(s) => {
                &&& nodes.last().cores@.len() > 0
                &&& nodes.last().cores@[0] < cores.len()
                &&& cores[nodes.last().cores@[0] as int].package_id == s
            },
        };
        if keep {
            rest.push(nodes.last())
        } else {
            rest
        }
    }
}

/// Build one `GroupUsage` per NUMA-per-socket node, honoring the socket
/// filter and the SMT setting.
pub fn nps_group_usages(
    topology: &ZenTopology,
    stats: &SystemStats,
    show_smt: bool,
    socket_filter: Option<usize>,
) -> (r: Vec<GroupUsage>)
    requires
        usages_wf(stats.core_usages@),
    ensures
        ({
            let sel = nps_selected(topology.nps_nodes@, topology.cores@, socket_filter);
            &&& r@.len() == sel.len()
            &&& forall|g: int|
                0 <= g < sel.len() ==> usage_matches(
                    #[trigger] r@[g],
                    nps_name_spec(sel[g].id as int, sel[g].numa_nodes@),
                    sel[g].id as int,
                    member_usages_of(
                        members_filtered(sel[g].cores@, topology.cores@, show_smt),
                        stats.core_usages@,
                    ),
                )
        }),
{
    let n = topology.nps_nodes.len();
    let mut r: Vec<GroupUsage> = Vec::new();
    let mut i: usize = 0;
    while i < n
        invariant
            n == topology.nps_nodes@.len(),
            0 <= i <= n,
            usages_wf(stats.core_usages@),
            ({
                let sel = nps_selected(
                    topology.nps_nodes@.take(i as int),
                    topology.cores@,
                    socket_filter,
                );
                &&& r@.len() == sel.len()
                &&& forall|g: int|
                    0 <= g < sel.len() ==> usage_matches(
                        #[trigger] r@[g],
                        nps_name_spec(sel[g].id as int, sel[g].numa_nodes@),
                        sel[g].id as int,
                        member_usages_of(
                            members_filtered(sel[g].cores@, topology.cores@, show_smt),
                            stats.core_usages@,
                        ),
                    )
            }),
        decreases n - i,
    {
        proof {
            assert(topology.nps_nodes@.take(i + 1 as int).drop_last() =~= topology.nps_nodes@.take(
                i as int,
            ));
            assert(topology.nps_nodes@.take(i + 1 as int).last() == topology.nps_nodes@[i as int]);
        }
        let node = &topology.nps_nodes[i];
        let keep = match socket_filter {
            Option::None => true,
            Option::Some(s) => {
                if node.cores.len() > 0 {
                    let first = node.cores[0];
                    if first < topology.cores.len() {
                        topology.cores[first].package_id == s
                    } else {
                        false
                    }
                } else {
                    false
                }
            },
        };
        if keep {
            let usages = collect_usages(&node.cores, &topology.cores, &stats.core_usages, show_smt);
            proof {
                lemma_member_usages_wf(
                    members_filtered(node.cores@, topology.cores@, show_smt),
                    stats.core_usages@,
                );
            }
            let gu = GroupUsage::from_cores(nps_name(node.id, &node.numa_nodes), node.id, &usages);
            r.push(gu);
        }
        i = i + 1;
    }
    proof {
        assert(topology.nps_nodes@.take(n as int) =~= topology.nps_nodes@);
    }
    r
}

/// The CPUs the flat core view shows: filtered by the SMT setting and, on a
/// dual-socket screen, by each CPU's own package.
pub open spec fn cores_selected(s: Seq<CpuCore>, show_smt: bool, socket: Option<usize>) -> Seq<
    CpuCore,
>
    decreases s.len(),
{
    if s.len() == 0 {
        Seq::empty()
    } else {
        let rest = cores_selected(s.drop_last(), show_smt, socket);
        let keep = (show_smt || lower_sibling(s.last())) && match socket {
            Option::None => true,
            Option::Some(sk) => s.last().package_id == sk,
        };
        if keep {
            rest.push(s.last())
        } else {
            rest
        }
    }
}

/// The samples of the selected CPUs, a missing sample reading as zero.
pub open spec fn core_usages_of(sel: Seq<CpuCore>, samples: Seq<CoreUsage>) -> Seq<CoreUsage>
    decreases sel.len(),
{
    if sel.len() == 0 {
        Seq::empty()
    } else {
        let rest = core_usages_of(sel.drop_last(), samples);
        let id = sel.last().id;
        rest.push(
            if id < samples.len() {
                CoreUsage {
                    core_id: id,
                    usage_centi: samples[id as int].usage_centi,
                    frequency_mhz: samples[id as int].frequency_mhz,
                }
            } else {
                CoreUsage { core_id: id, usage_centi: 0, frequency_mhz: None }
            },
        )
    }
}

proof fn lemma_core_usages_wf(sel: Seq<CpuCore>, samples: Seq<CoreUsage>)
    requires
        usages_wf(samples),
    ensures
        usages_wf(core_usages_of(sel, samples)),
    decreases sel.len(),
{
    if sel.len() > 0 {
        lemma_core_usages_wf(sel.drop_last(), samples);
        let whole = core_usages_of(sel, samples);
        let rest = core_usages_of(sel.drop_last(), samples);
        assert forall|i: int| 0 <= i < whole.len() implies core_usage_wf(#[trigger] whole[i]) by {
            if i < rest.len() {
                assert(whole[i] == rest[i]);
            }
        }
    }
}

/// The flat core view as one synthetic unlabeled group, so that the layout
/// engine has a single code path for grouped and flat rendering.
pub fn core_view_group(
    topology: &ZenTopology,
    stats: &SystemStats,
    show_smt: bool,
    socket_filter: Option<usize>,
) -> (r: GroupUsage)
    requires
        usages_wf(stats.core_usages@),
    ensures
        usage_matches(
            r,
            Seq::<char>::empty(),
            0,
            core_usages_of(
                cores_selected(topology.cores@, show_smt, socket_filter),
                stats.core_usages@,
            ),
        ),
{
    let n = topology.cores.len();
    let mut usages: Vec<CoreUsage> = Vec::new();
    let mut i: usize = 0;
    while i < n
        invariant
            n == topology.cores@.len(),
            0 <= i <= n,
            usages@ == core_usages_of(
                cores_selected(topology.cores@.take(i as int), show_smt, socket_filter),
                stats.core_usages@,
            ),
        decreases n - i,
    {
        proof {
            assert(topology.cores@.take(i + 1 as int).drop_last() =~= topology.cores@.take(
                i as int,
            ));
            assert(topology.cores@.take(i + 1 as int).last() == topology.cores@[i as int]);
            let selprev = cores_selected(
                topology.cores@.take(i as int),
                show_smt,
                socket_filter,
            );
            if cores_selected(topology.cores@.take(i + 1 as int), show_smt, socket_filter)
                != selprev {
                assert(cores_selected(topology.cores@.take(i + 1 as int), show_smt, socket_filter)
                    == selprev.push(topology.cores@[i as int]));
                assert(selprev.push(topology.cores@[i as int]).drop_last() =~= selprev);
            }
        }
        let c = topology.cores[i];
        let keep_smt = show_smt || match c.smt_sibling {
            Option::None => true,
            Option::Some(s) => c.id < s,
        };
        let keep_socket = match socket_filter {
            Option::None => true,
            Option::Some(sk) => c.package_id == sk,
        };
        if keep_smt && keep_socket {
            if c.id < stats.core_usages.len() {
                usages.push(
                    CoreUsage {
                        core_id: c.id,
                        usage_centi: stats.core_usages[c.id].usage_centi,
                        frequency_mhz: stats.core_usages[c.id].frequency_mhz,
                    },
                );
            } else {
                usages.push(CoreUsage { core_id: c.id, usage_centi: 0, frequency_mhz: None });
            }
        }
        i = i + 1;
    }
    proof {
        assert(topology.cores@.take(n as int) =~= topology.cores@);
        lemma_core_usages_wf(
            cores_selected(topology.cores@, show_smt, socket_filter),
            stats.core_usages@,
        );
    }
    GroupUsage::from_cores(String::new(), 0, &usages)
}

} // verus!
