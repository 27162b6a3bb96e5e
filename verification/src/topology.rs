use vstd::prelude::*;

verus! {

/// One schedulable hardware thread (logical CPU).
#[derive(Debug, Clone, Copy)]
pub struct CpuCore {
    /// Logical CPU id; unique and dense from 0, matching the sampling adapter's indexing.
    pub id: usize,
    /// Physical core this thread shares with its SMT sibling, if any.
    pub physical_id: usize,
    /// Core-complex die: the last-level-cache sharing group.
    pub ccd_id: usize,
    /// Core complex (L3 cache group); equals `ccd_id` in this architecture.
    pub ccx_id: usize,
    /// NUMA node id.
    pub numa_node: usize,
    /// Physical package (socket) id.
    pub package_id: usize,
    /// The other logical CPU sharing this physical core, if SMT is on.
    pub smt_sibling: Option<usize>,
}

impl Default for CpuCore {
    fn default() -> (r: Self)
        ensures
            r.id == 0 && r.physical_id == 0 && r.ccd_id == 0 && r.ccx_id == 0,
            r.numa_node == 0 && r.package_id == 0 && r.smt_sibling is None,
    {
        CpuCore {
            id: 0,
            physical_id: 0,
            ccd_id: 0,
            ccx_id: 0,
            numa_node: 0,
            package_id: 0,
            smt_sibling: None,
        }
    }
}

/// Core-complex die group: the logical CPUs sharing one last-level cache.
#[derive(Debug, Clone)]
pub struct Ccd {
    pub id: usize,
    /// Package owning this die, taken from its lowest-id member.
    pub package_id: usize,
    /// Member logical CPU ids, ascending.
    pub cores: Vec<usize>,
}

/// NUMA node group.
#[derive(Debug, Clone)]
pub struct NumaNode {
    pub id: usize,
    /// Member logical CPU ids, ascending.
    pub cores: Vec<usize>,
    /// Local memory in MB, when the enumeration reports it.
    pub memory_mb: Option<u64>,
}

/// NUMA-per-socket node: the NUMA nodes of one package, merged.
#[derive(Debug, Clone)]
pub struct NpsNode {
    pub id: usize,
    /// Constituent NUMA node ids.
    pub numa_nodes: Vec<usize>,
    /// Member logical CPU ids, ascending and deduplicated.
    pub cores: Vec<usize>,
}

/// Processor generation, inferred from structure alone.
#[derive(Debug, Clone, Copy, PartialEq, Eq, Structural)]
pub enum ZenGeneration {
    Zen,
    Zen2,
    Zen3,
    Zen4,
    Zen5,
    Unknown,
}

impl ZenGeneration {
    /// Human-readable name of the generation.
    pub fn label(&self) -> (r: &'static str)
        ensures
            r@ == self.label_spec(),
    {
        proof {
            reveal_strlit("Zen");
            reveal_strlit("Zen 2");
            reveal_strlit("Zen 3");
            reveal_strlit("Zen 4");
            reveal_strlit("Zen 5");
            reveal_strlit("Unknown");
        }
        match self {
            ZenGeneration::Zen => "Zen",
            ZenGeneration::Zen2 => "Zen 2",
            ZenGeneration::Zen3 => "Zen 3",
            ZenGeneration::Zen4 => "Zen 4",
            ZenGeneration::Zen5 => "Zen 5",
            ZenGeneration::Unknown => "Unknown",
        }
    }

    pub open spec fn label_spec(self) -> Seq<char> {
        match self {
            ZenGeneration::Zen => "Zen"@,
            ZenGeneration::Zen2 => "Zen 2"@,
            ZenGeneration::Zen3 => "Zen 3"@,
            ZenGeneration::Zen4 => "Zen 4"@,
            ZenGeneration::Zen5 => "Zen 5"@,
            ZenGeneration::Unknown => "Unknown"@,
        }
    }
}

/// NUMA-per-socket mode: how many NUMA domains one package exposes.
#[derive(Debug, Clone, Copy, PartialEq, Eq, Structural)]
pub enum NpsMode {
    Nps1,
    Nps2,
    Nps4,
    Unknown,
}

impl NpsMode {
    /// Human-readable name of the mode.
    pub fn label(&self) -> (r: &'static str)
        ensures
            r@ == self.label_spec(),
    {
        proof {
            reveal_strlit("NPS1");
            reveal_strlit("NPS2");
            reveal_strlit("NPS4");
            reveal_strlit("Unknown");
        }
        match self {
            NpsMode::Nps1 => "NPS1",
            NpsMode::Nps2 => "NPS2",
            NpsMode::Nps4 => "NPS4",
            NpsMode::Unknown => "Unknown",
        }
    }

    pub open spec fn label_spec(self) -> Seq<char> {
        match self {
            NpsMode::Nps1 => "NPS1"@,
            NpsMode::Nps2 => "NPS2"@,
            NpsMode::Nps4 => "NPS4"@,
            NpsMode::Unknown => "Unknown"@,
        }
    }
}

/// The full inferred hardware shape. Built once at startup and read-only afterwards.
#[derive(Debug, Clone)]
pub struct ZenTopology {
    pub cpu_model: String,
    pub generation: ZenGeneration,
    pub nps_mode: NpsMode,
    /// All logical CPUs, ordered so that `cores[i].id == i`.
    pub cores: Vec<CpuCore>,
    /// Core-complex dies, ascending by id.
    pub ccds: Vec<Ccd>,
    /// NUMA nodes, ascending by id.
    pub numa_nodes: Vec<NumaNode>,
    /// NUMA-per-socket nodes, ascending by id.
    pub nps_nodes: Vec<NpsNode>,
    /// Package (socket) count.
    pub packages: usize,
    /// Physical core count.
    pub total_cores: usize,
    /// Logical CPU count.
    pub total_threads: usize,
    pub smt_enabled: bool,
}

impl ZenTopology {
    /// Logical CPU ids are dense from 0: the vector index is the id.
    pub open spec fn cores_indexed(self) -> bool {
        forall|i: int| 0 <= i < self.cores.len() ==> (#[trigger] self.cores[i]).id == i
    }

    /// The thread count matches the core list.
    pub open spec fn threads_counted(self) -> bool {
        self.total_threads == self.cores.len()
    }

    /// Every group member is a valid logical CPU id.
    pub open spec fn members_in_range(self) -> bool {
        &&& forall|g: int, j: int|
            0 <= g < self.ccds.len() && 0 <= j < self.ccds[g].cores.len()
                ==> #[trigger] self.ccds[g].cores[j] < self.cores.len()
        &&& forall|g: int, j: int|
            0 <= g < self.numa_nodes.len() && 0 <= j < self.numa_nodes[g].cores.len()
                ==> #[trigger] self.numa_nodes[g].cores[j] < self.cores.len()
        &&& forall|g: int, j: int|
            0 <= g < self.nps_nodes.len() && 0 <= j < self.nps_nodes[g].cores.len()
                ==> #[trigger] self.nps_nodes[g].cores[j] < self.cores.len()
    }

    /// Well-formedness: what every consumer of a topology may assume.
    pub open spec fn wf(self) -> bool {
        &&& self.cores_indexed()
        &&& self.threads_counted()
        &&& self.members_in_range()
    }
}

impl Default for ZenTopology {
    fn default() -> (r: Self)
        ensures
            r.cpu_model@ == Seq::<char>::empty(),
            r.generation == ZenGeneration::Unknown,
            r.nps_mode == NpsMode::Unknown,
            r.cores@ == Seq::<CpuCore>::empty(),
            r.ccds@ == Seq::<Ccd>::empty(),
            r.numa_nodes@ == Seq::<NumaNode>::empty(),
            r.nps_nodes@ == Seq::<NpsNode>::empty(),
            r.packages == 0 && r.total_cores == 0 && r.total_threads == 0,
            !r.smt_enabled,
            r.wf(),
    {
        let t = ZenTopology {
            cpu_model: String::new(),
            generation: ZenGeneration::Unknown,
            nps_mode: NpsMode::Unknown,
            cores: Vec::new(),
            ccds: Vec::new(),
            numa_nodes: Vec::new(),
            nps_nodes: Vec::new(),
            packages: 0,
            total_cores: 0,
            total_threads: 0,
            smt_enabled: false,
        };
        t
    }
}

} // verus!
