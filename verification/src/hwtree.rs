use vstd::prelude::*;
use crate::topology::{CpuCore, ZenTopology};
use crate::detect::{
    build_topology, ccds_built, class_reps, clear_sibling, has_classmate, ids_dense, nps_built,
    nps_mode_of, numas_built, siblings_assigned, sum_ccd_sizes, sum_numa_sizes,
};
use crate::zen::zen_generation_of;

verus! {

/// A plain arena model of the hardware enumeration's object tree: typed
/// nodes with integer parent indices, each parent placed before its
/// children. Ancestor lookup is index-chasing with no ownership hazard.

/// The object types the inference reads; everything else is `Other`.
#[derive(Debug, Clone, Copy, PartialEq, Eq, Structural)]
pub enum HwObjectType {
    Package,
    Core,
    L3Cache,
    NumaNode,
    Pu,
    Other,
}

/// One enumerated hardware object.
#[derive(Debug, Clone)]
pub struct HwObject {
    pub object_type: HwObjectType,
    /// OS-visible index, when the enumeration reports one.
    pub os_index: Option<usize>,
    /// Logical index among the objects of the same type.
    pub logical_index: usize,
    /// Arena index of the parent; the root has none.
    pub parent: Option<usize>,
    /// The logical CPUs covered by this object, when reported.
    pub cpuset: Option<Vec<usize>>,
}

/// The whole enumerated tree, parents before children.
#[derive(Debug, Clone)]
pub struct HwTree {
    pub objects: Vec<HwObject>,
}

impl HwTree {
    /// Every parent link points at an earlier arena slot.
    pub open spec fn wf(self) -> bool {
        forall|i: int|
            0 <= i < self.objects@.len() ==> match (#[trigger] self.objects@[i]).parent {
                Option::Some(p) => p < i,
                Option::None => true,
            }
    }
}

/// The nearest ancestor of the given type, starting from the parent link
/// `cur`: its logical index, or none when the chain ends first.
pub open spec fn ancestor_from(tree: HwTree, cur: Option<usize>, target: HwObjectType) -> Option<
    usize,
>
    decreases (match cur {
        Option::Some(p) => p + 1,
        Option::None => 0,
    }),
    when tree.wf() && (match cur {
        Option::Some(p) => p < tree.objects@.len(),
        Option::None => true,
    })
{
    match cur {
        Option::None => None,
        Option::Some(p) => if tree.objects@[p as int].object_type == target {
            Some(tree.objects@[p as int].logical_index)
        } else {
            ancestor_from(tree, tree.objects@[p as int].parent, target)
        },
    }
}

/// Walk ancestor links upward to the nearest object of the target type.
pub fn find_ancestor_index(tree: &HwTree, start: usize, target: HwObjectType) -> (r: Option<usize>)
    requires
        tree.wf(),
        start < tree.objects@.len(),
    ensures
        r == ancestor_from(*tree, tree.objects@[start as int].parent, target),
{
    let mut cur: Option<usize> = tree.objects[start].parent;
    let ghost orig = tree.objects@[start as int].parent;
    loop
        invariant
            tree.wf(),
            start < tree.objects@.len(),
            orig == tree.objects@[start as int].parent,
            match cur {
                Option::Some(p) => p < tree.objects@.len(),
                Option::None => true,
            },
            ancestor_from(*tree, orig, target) == ancestor_from(*tree, cur, target),
        decreases (match cur {
            Option::Some(p) => p as int + 1,
            Option::None => 0int,
        }),
    {
        match cur {
            Option::None => {
                return None;
            },
            Option::Some(p) => {
                if tree.objects[p].object_type == target {
                    return Some(tree.objects[p].logical_index);
                }
                cur = tree.objects[p].parent;
            },
        }
    }
}

/// Every CPU of `a` is also in `b`.
pub open spec fn cpuset_subset(a: Seq<usize>, b: Seq<usize>) -> bool {
    forall|x: usize| a.contains(x) ==> b.contains(x)
}

/// Whether `b` covers every CPU of `a`.
fn cpuset_includes(a: &Vec<usize>, b: &Vec<usize>) -> (r: bool)
    ensures
        r == cpuset_subset(a@, b@),
{
    let n = a.len();
    let mut i: usize = 0;
    while i < n
        invariant
            n == a@.len(),
            0 <= i <= n,
            forall|j: int| 0 <= j < i ==> b@.contains(#[trigger] a@[j]),
        decreases n - i,
    {
        let x = a[i];
        let m = b.len();
        let mut j: usize = 0;
        let mut found: bool = false;
        while j < m
            invariant
                m == b@.len(),
                0 <= j <= m,
                found <==> exists|t: int| 0 <= t < j && b@[t] == x,
            decreases m - j,
        {
            if b[j] == x {
                found = true;
            }
            j = j + 1;
        }
        if !found {
            proof {
                assert(a@.contains(a@[i as int]));
                assert(!b@.contains(a@[i as int]));
            }
            return false;
        }
        i = i + 1;
    }
    proof {
        assert forall|x: usize| a@.contains(x) implies b@.contains(x) by {
            let j = choose|j: int| 0 <= j < a@.len() && a@[j] == x;
        }
    }
    true
}

/// The logical index of the first NUMA object (scanning from `from`) whose
/// cpuset covers `cs`.
pub open spec fn first_numa_superset(tree: HwTree, from: int, cs: Seq<usize>) -> Option<usize>
    decreases tree.objects@.len() - from,
    when 0 <= from <= tree.objects@.len()
{
    if from == tree.objects@.len() {
        None
    } else {
        let o = tree.objects@[from];
        if o.object_type == HwObjectType::NumaNode && (match o.cpuset {
            Option::Some(v) => cpuset_subset(cs, v@),
            Option::None => false,
        }) {
            Some(o.logical_index)
        } else {
            first_numa_superset(tree, from + 1, cs)
        }
    }
}

/// The NUMA node of object `i`: its nearest NUMA ancestor, or failing that
/// the first NUMA object whose cpuset covers the object's own cpuset.
pub open spec fn numa_node_of(tree: HwTree, i: int) -> Option<usize> {
    match ancestor_from(tree, tree.objects@[i].parent, HwObjectType::NumaNode) {
        Option::Some(x) => Some(x),
        Option::None => match tree.objects@[i].cpuset {
            Option::None => None,
            Option::Some(cs) => first_numa_superset(tree, 0, cs@),
        },
    }
}

/// Find the NUMA node of object `obj`: by ancestry first, then by cpuset
/// containment against every NUMA object.
pub fn find_numa_node(tree: &HwTree, obj: usize) -> (r: Option<usize>)
    requires
        tree.wf(),
        obj < tree.objects@.len(),
    ensures
        r == numa_node_of(*tree, obj as int),
{
    let direct = find_ancestor_index(tree, obj, HwObjectType::NumaNode);
    if let Some(idx) = direct {
        return Some(idx);
    }
    let cs = match &tree.objects[obj].cpuset {
        Option::Some(v) => v,
        Option::None => {
            return None;
        },
    };
    let n = tree.objects.len();
    let mut i: usize = 0;
    while i < n
        invariant
            tree.wf(),
            obj < n,
            n == tree.objects@.len(),
            0 <= i <= n,
            ancestor_from(*tree, tree.objects@[obj as int].parent, HwObjectType::NumaNode)
                is None,
            tree.objects@[obj as int].cpuset is Some,
            cs@ == tree.objects@[obj as int].cpuset->Some_0@,
            first_numa_superset(*tree, 0, cs@) == first_numa_superset(*tree, i as int, cs@),
        decreases n - i,
    {
        let o = &tree.objects[i];
        if o.object_type == HwObjectType::NumaNode {
            match &o.cpuset {
                Option::Some(numa_cs) => {
                    if cpuset_includes(cs, numa_cs) {
                        return Some(o.logical_index);
                    }
                },
                Option::None => {},
            }
        }
        i = i + 1;
    }
    None
}

/// Objects of type `t` among the first `upto` arena slots.
pub open spec fn count_type(tree: HwTree, t: HwObjectType, upto: int) -> int
    decreases upto,
{
    if upto <= 0 {
        0
    } else {
        count_type(tree, t, upto - 1) + if tree.objects@[upto - 1].object_type == t {
            1int
        } else {
            0int
        }
    }
}

/// The raw CPU derived from the processing-unit object at slot `i`, where
/// `count` processing units precede it. The id is the OS-visible index,
/// falling back to the assignment order; the die is the L3 sharing group;
/// the physical core falls back to the id when no core ancestor exists.
pub open spec fn core_of(tree: HwTree, i: int, count: int) -> CpuCore {
    let o = tree.objects@[i];
    let os_idx = match o.os_index {
        Option::Some(x) => x,
        Option::None => count as usize,
    };
    let package_id = match ancestor_from(tree, o.parent, HwObjectType::Package) {
        Option::Some(x) => x,
        Option::None => 0usize,
    };
    let ccd_id = match ancestor_from(tree, o.parent, HwObjectType::L3Cache) {
        Option::Some(x) => x,
        Option::None => 0usize,
    };
    let physical_id = match ancestor_from(tree, o.parent, HwObjectType::Core) {
        Option::Some(x) => x,
        Option::None => os_idx,
    };
    let numa_id = match numa_node_of(tree, i) {
        Option::Some(x) => x,
        Option::None => 0usize,
    };
    CpuCore {
        id: os_idx,
        physical_id,
        ccd_id,
        ccx_id: ccd_id,
        numa_node: numa_id,
        package_id,
        smt_sibling: None,
    }
}

/// The raw CPUs of the first `upto` arena slots, one per processing unit,
/// in arena order.
pub open spec fn extract_spec(tree: HwTree, upto: int) -> Seq<CpuCore>
    decreases upto,
{
    if upto <= 0 {
        Seq::empty()
    } else {
        let rest = extract_spec(tree, upto - 1);
        if tree.objects@[upto - 1].object_type == HwObjectType::Pu {
            rest.push(core_of(tree, upto - 1, rest.len() as int))
        } else {
            rest
        }
    }
}

/// The extraction never assigns SMT siblings; that is the inference's job.
proof fn lemma_extract_siblings_none(tree: HwTree, upto: int)
    ensures
        forall|i: int|
            0 <= i < extract_spec(tree, upto).len() ==> (#[trigger] extract_spec(tree, upto)[i])
                .smt_sibling is None,
    decreases upto,
{
    if upto > 0 {
        lemma_extract_siblings_none(tree, upto - 1);
    }
}

/// Extract one raw CPU per processing-unit object from the enumerated tree.
pub fn extract_cores(tree: &HwTree) -> (r: Vec<CpuCore>)
    requires
        tree.wf(),
    ensures
        r@ == extract_spec(*tree, tree.objects@.len() as int),
{
    let n = tree.objects.len();
    let mut r: Vec<CpuCore> = Vec::new();
    let mut i: usize = 0;
    while i < n
        invariant
            tree.wf(),
            n == tree.objects@.len(),
            0 <= i <= n,
            r@ == extract_spec(*tree, i as int),
        decreases n - i,
    {
        if tree.objects[i].object_type == HwObjectType::Pu {
            let os_idx = match tree.objects[i].os_index {
                Option::Some(x) => x,
                Option::None => r.len(),
            };
            let package_id = match find_ancestor_index(tree, i, HwObjectType::Package) {
                Option::Some(x) => x,
                Option::None => 0,
            };
            let ccd_id = match find_ancestor_index(tree, i, HwObjectType::L3Cache) {
                Option::Some(x) => x,
                Option::None => 0,
            };
            let physical_id = match find_ancestor_index(tree, i, HwObjectType::Core) {
                Option::Some(x) => x,
                Option::None => os_idx,
            };
            let numa_id = match find_numa_node(tree, i) {
                Option::Some(x) => x,
                Option::None => 0,
            };
            r.push(
                CpuCore {
                    id: os_idx,
                    physical_id,
                    ccd_id,
                    ccx_id: ccd_id,
                    numa_node: numa_id,
                    package_id,
                    smt_sibling: None,
                },
            );
        }
        i = i + 1;
    }
    r
}

/// Count the package (socket) objects of the tree.
fn count_packages(tree: &HwTree) -> (r: usize)
    ensures
        r == count_type(*tree, HwObjectType::Package, tree.objects@.len() as int),
        r <= tree.objects@.len(),
{
    let n = tree.objects.len();
    let mut count: usize = 0;
    let mut i: usize = 0;
    while i < n
        invariant
            n == tree.objects@.len(),
            0 <= i <= n,
            count == count_type(*tree, HwObjectType::Package, i as int),
            count <= i,
        decreases n - i,
    {
        if tree.objects[i].object_type == HwObjectType::Package {
            count = count + 1;
        }
        i = i + 1;
    }
    count
}

/// Infer the system topology from the enumerated hardware tree.
///
/// The extracted processing units must carry ids that are dense from 0 (the
/// data model's invariant). The package count is the number of package
/// objects, with zero read defensively as one.
pub fn detect_topology(tree: &HwTree) -> (r: ZenTopology)
    requires
        tree.wf(),
        ids_dense(extract_spec(*tree, tree.objects@.len() as int)),
    ensures
        r.wf(),
        ({
            let raw = extract_spec(*tree, tree.objects@.len() as int);
            let pkgs = count_type(*tree, HwObjectType::Package, tree.objects@.len() as int);
            &&& r.packages == if pkgs == 0 { 1int } else { pkgs }
            &&& r.total_threads == raw.len()
            &&& r.cpu_model@ == Seq::<char>::empty()
            &&& forall|k: int| 0 <= k < r.cores@.len() ==> (#[trigger] r.cores@[k]).id == k
            &&& forall|k: int|
                0 <= k < r.cores@.len() ==> raw.contains(clear_sibling(#[trigger] r.cores@[k]))
            &&& siblings_assigned(r.cores@)
            &&& (r.smt_enabled <==> exists|i: int|
                0 <= i < r.cores@.len() && #[trigger] has_classmate(r.cores@, i))
            &&& r.total_cores == class_reps(r.cores@)
            &&& ccds_built(r.cores@, r.ccds@)
            &&& sum_ccd_sizes(r.ccds@) == r.total_threads
            &&& numas_built(r.cores@, r.numa_nodes@)
            &&& sum_numa_sizes(r.numa_nodes@) == r.total_threads
            &&& r.nps_mode == nps_mode_of(r.numa_nodes@.len() as int, r.packages as int)
            &&& nps_built(r.numa_nodes@, r.packages, r.nps_nodes@)
            &&& r.generation == zen_generation_of(r.ccds@.len() as int, r.total_cores as int)
        }),
{
    let raw = extract_cores(tree);
    let mut packages = count_packages(tree);
    if packages == 0 {
        packages = 1;
    }
    proof {
        lemma_extract_siblings_none(*tree, tree.objects@.len() as int);
    }
    build_topology(&raw, packages)
}


} // verus!
