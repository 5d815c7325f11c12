//! What the command-line tool reports: the records it prints as JSON, the
//! texts of its information screens, and the choices it makes from its
//! arguments.
use vstd::prelude::*;

use crate::capability::Capabilities;
use crate::cpulist::{format_ranges, range_list};
use crate::text::{dec, owned, push_decimal, push_str};
use crate::topo::{total_cpus, NumaNode, Topology};
use crate::types::{ascending, CpuSet};

verus! {

// ---------------------------------------------------------------------------
// Arguments
// ---------------------------------------------------------------------------

/// The sections of the `info` command.
#[derive(Debug, Clone, Copy, PartialEq, Eq, Structural)]
pub enum InfoSection {
    /// Show all information.
    All,
    /// NUMA topology (nodes, CPUs, memory).
    Topology,
    /// System capabilities for hard mode.
    Capabilities,
    /// Current thread CPU affinity.
    Affinity,
    /// NUMA node distance matrix.
    Distances,
}

/// The output formats of the tool.
#[derive(Debug, Clone, Copy, PartialEq, Eq, Structural)]
pub enum OutputFormat {
    Text,
    Json,
}

/// The arguments of the `info` command.
#[derive(Debug, Clone, Copy, PartialEq, Eq, Structural)]
pub struct InfoArgs {
    /// Section to display.
    pub section: InfoSection,
    /// Output format.
    pub format: OutputFormat,
    /// Verbose output with recommendations.
    pub verbose: bool,
}

impl InfoArgs {
    /// What the tool shows when no command is given: all sections, as
    /// text, not verbose.
    pub fn default_info() -> (r: Self)
        ensures
            r == (InfoArgs { section: InfoSection::All, format: OutputFormat::Text, verbose: false }),
    {
        InfoArgs { section: InfoSection::All, format: OutputFormat::Text, verbose: false }
    }
}

/// The thread count of the benchmarks: the one asked for, or else the CPU
/// count of all nodes (at least 1).
pub fn bench_threads(asked: Option<usize>, topo: &Topology) -> (r: usize)
    ensures
        r == match asked {
            Some(t) => t as nat,
            None => if total_cpus(topo@.nodes) >= 1 {
                total_cpus(topo@.nodes)
            } else {
                1
            },
        },
{
    match asked {
        Some(t) => t,
        None => {
            let sum = topo.cpu_count();
            if sum >= 1 {
                sum
            } else {
                1
            }
        },
    }
}

// ---------------------------------------------------------------------------
// Durations and health
// ---------------------------------------------------------------------------

/// The unit a duration is shown in.
#[derive(Debug, Clone, Copy, PartialEq, Eq, Structural)]
pub enum DurationScale {
    Nanos,
    Micros,
    Millis,
    Seconds,
}

/// The unit for a duration of `nanos` nanoseconds: nanoseconds below a
/// microsecond, microseconds below a millisecond, milliseconds below a
/// second, else seconds.
pub fn duration_scale(nanos: u128) -> (r: DurationScale)
    ensures
        r == if nanos < 1000 {
            DurationScale::Nanos
        } else if nanos < 1000000 {
            DurationScale::Micros
        } else if nanos < 1000000000 {
            DurationScale::Millis
        } else {
            DurationScale::Seconds
        },
{
    if nanos < 1000 {
        DurationScale::Nanos
    } else if nanos < 1000000 {
        DurationScale::Micros
    } else if nanos < 1000000000 {
        DurationScale::Millis
    } else {
        DurationScale::Seconds
    }
}

/// The text of a duration below a microsecond: "<n> ns".
pub fn format_nanos(nanos: u64) -> (r: String)
    ensures
        r@ == dec(nanos as nat) + " ns"@,
{
    let mut s = String::new();
    push_decimal(&mut s, nanos);
    push_str(&mut s, " ns");
    assert(s@ =~= dec(nanos as nat) + " ns"@);
    s
}

/// The health of a benchmark run's locality.
#[derive(Debug, Clone, Copy, PartialEq, Eq, Structural)]
pub enum LocalityHealth {
    Excellent,
    Good,
    Fair,
    Poor,
}

/// The label of a benchmark health level.
pub open spec fn bench_health_label(h: LocalityHealth) -> Seq<char> {
    match h {
        LocalityHealth::Excellent => "EXCELLENT"@,
        LocalityHealth::Good => "GOOD"@,
        LocalityHealth::Fair => "FAIR"@,
        LocalityHealth::Poor => "POOR"@,
    }
}

impl LocalityHealth {
    /// Get a string description of the health status.
    pub fn description(&self) -> (r: &'static str)
        ensures
            r@ == bench_health_label(*self),
    {
        match self {
            LocalityHealth::Excellent => "EXCELLENT",
            LocalityHealth::Good => "GOOD",
            LocalityHealth::Fair => "FAIR",
            LocalityHealth::Poor => "POOR",
        }
    }

    /// The display text (the description).
    pub fn to_string(&self) -> (r: String)
        ensures
            r@ == bench_health_label(*self),
    {
        owned(self.description())
    }
}

// ---------------------------------------------------------------------------
// CPU lists
// ---------------------------------------------------------------------------

/// A CPU list as the tool writes it: "none" for no CPU, else ascending
/// ranges separated by `sep`.
pub open spec fn cpu_list_text(cpus: Set<u32>, sep: Seq<char>) -> Seq<char> {
    if ascending(cpus, 1024).len() == 0 {
        "none"@
    } else {
        range_list(ascending(cpus, 1024), sep)
    }
}

/// Writes a CPU list: "none" for no CPU, else ranges separated by `sep`.
pub fn format_cpu_list(cpus: &CpuSet, sep: &str) -> (r: String)
    ensures
        r@ == cpu_list_text(cpus@, sep@),
{
    let v = cpus.iter();
    if v.len() == 0 {
        return owned("none");
    }
    format_ranges(&v, sep)
}

// ---------------------------------------------------------------------------
// JSON records
// ---------------------------------------------------------------------------

/// A node as the tool reports it.
#[derive(Debug, Clone, PartialEq, Eq)]
pub struct NodeInfo {
    pub id: u32,
    pub cpus: String,
    pub cpu_count: usize,
    pub memory_mb: Option<u64>,
}

/// The topology as the tool reports it.
#[derive(Debug, Clone, PartialEq, Eq)]
pub struct TopologyInfo {
    pub node_count: usize,
    pub cpu_count: usize,
    pub is_numa: bool,
    pub nodes: Vec<NodeInfo>,
    pub distances: Vec<Vec<Option<u32>>>,
}

/// The capabilities as the tool reports them.
#[derive(Debug, Clone, Copy, PartialEq, Eq, Structural)]
pub struct CapabilitiesInfo {
    pub hard_mode_supported: bool,
    pub strict_memory_binding: bool,
    pub strict_cpu_affinity: bool,
    pub memory_locking: bool,
    pub numa_balancing_disabled: bool,
    pub numa_node_count: usize,
    pub is_numa_system: bool,
}

/// The current thread's affinity as the tool reports it.
#[derive(Debug, Clone, PartialEq, Eq)]
pub struct AffinityInfo {
    pub cpus: String,
    pub cpu_count: usize,
    pub nodes: Vec<u32>,
    pub is_node_local: bool,
}

/// Everything the `info` command reports.
#[derive(Debug, Clone, PartialEq, Eq)]
pub struct FullSystemInfo {
    pub topology: TopologyInfo,
    pub capabilities: CapabilitiesInfo,
    pub affinity: Option<AffinityInfo>,
}

/// The system line of the benchmark report.
#[derive(Debug, Clone, Copy, PartialEq, Eq, Structural)]
pub struct SystemInfo {
    pub numa_nodes: usize,
    pub cpus: usize,
    pub hard_mode_supported: bool,
}

/// The distance from node `a` to node `b`, if `a`'s table has an entry.
pub open spec fn distance_of(a: crate::topo::NodeInfo, b: crate::topo::NodeInfo) -> Option<u32> {
    if (b.id.0 as int) < a.distances.len() {
        Some(a.distances[b.id.0 as int])
    } else {
        None
    }
}

/// Whether row `row` holds the distances from node `a` to each of `nodes`.
pub open spec fn distance_row(row: Seq<Option<u32>>, a: crate::topo::NodeInfo, nodes: Seq<crate::topo::NodeInfo>) -> bool {
    &&& row.len() == nodes.len()
    &&& forall|j: int| 0 <= j < nodes.len() ==> #[trigger] row[j] == distance_of(a, nodes[j])
}

/// Whether `m` is the distance matrix of `nodes`.
pub open spec fn is_distance_matrix(m: Seq<Vec<Option<u32>>>, nodes: Seq<crate::topo::NodeInfo>) -> bool {
    &&& m.len() == nodes.len()
    &&& forall|i: int| 0 <= i < nodes.len() ==> distance_row(#[trigger] m[i]@, nodes[i], nodes)
}

/// The distances between all nodes: row `i`, column `j` is the distance
/// from node `i` to node `j`, if known.
pub fn build_distance_matrix(topo: &Topology) -> (r: Vec<Vec<Option<u32>>>)
    ensures
        is_distance_matrix(r@, topo@.nodes),
{
    let nodes = topo.numa_nodes();
    let ghost views = topo@.nodes;
    let mut m: Vec<Vec<Option<u32>>> = Vec::new();
    let mut i: usize = 0;
    while i < nodes.len()
        invariant
            i <= nodes@.len(),
            views == nodes@.map_values(|n: NumaNode| n@),
            m@.len() == i,
            forall|k: int| 0 <= k < i ==> distance_row(#[trigger] m@[k]@, views[k], views),
        decreases nodes@.len() - i,
    {
        let src = &nodes[i];
        assert(views[i as int] == src@);
        let mut row: Vec<Option<u32>> = Vec::new();
        let mut j: usize = 0;
        while j < nodes.len()
            invariant
                j <= nodes@.len(),
                i < nodes@.len(),
                views == nodes@.map_values(|n: NumaNode| n@),
                views[i as int] == src@,
                row@.len() == j,
                forall|k: int| 0 <= k < j ==> #[trigger] row@[k] == distance_of(src@, views[k]),
            decreases nodes@.len() - j,
        {
            assert(views[j as int] == nodes@[j as int]@);
            row.push(src.distance_to(nodes[j].id()));
            j = j + 1;
        }
        m.push(row);
        i = i + 1;
    }
    m
}

/// Whether `info` reports node `n`.
pub open spec fn node_info_of(info: NodeInfo, n: crate::topo::NodeInfo) -> bool {
    &&& info.id == n.id.0
    &&& info.cpus@ == cpu_list_text(n.cpus, ","@)
    &&& info.cpu_count == n.cpus.len()
    &&& info.memory_mb == match n.memory_bytes {
        Some(b) => Some((b / 1048576u64) as u64),
        None => None,
    }
}

/// The topology record: node and CPU counts, whether there are several
/// nodes, each node, and the distance matrix.
pub fn build_topology_info(topo: &Topology) -> (r: TopologyInfo)
    ensures
        r.node_count == topo@.nodes.len(),
        r.cpu_count == total_cpus(topo@.nodes),
        r.is_numa == (topo@.nodes.len() != 1),
        r.nodes@.len() == topo@.nodes.len(),
        forall|i: int| 0 <= i < topo@.nodes.len() ==> node_info_of(#[trigger] r.nodes@[i], topo@.nodes[i]),
        is_distance_matrix(r.distances@, topo@.nodes),
{
    let nodes = topo.numa_nodes();
    let ghost views = topo@.nodes;
    let mut infos: Vec<NodeInfo> = Vec::new();
    let mut i: usize = 0;
    while i < nodes.len()
        invariant
            i <= nodes@.len(),
            views == nodes@.map_values(|n: NumaNode| n@),
            views == topo@.nodes,
            infos@.len() == i,
            forall|k: int| 0 <= k < i ==> node_info_of(#[trigger] infos@[k], views[k]),
        decreases nodes@.len() - i,
    {
        let n = &nodes[i];
        assert(views[i as int] == n@);
        infos.push(
            NodeInfo {
                id: n.id().as_u32(),
                cpus: format_cpu_list(n.cpus(), ","),
                cpu_count: n.cpu_count(),
                memory_mb: n.memory_mb(),
            },
        );
        i = i + 1;
    }
    let distances = build_distance_matrix(topo);
    TopologyInfo {
        node_count: topo.node_count(),
        cpu_count: topo.cpu_count(),
        is_numa: !topo.is_single_node(),
        nodes: infos,
        distances,
    }
}

/// The capabilities record.
pub fn build_capabilities_info(caps: &Capabilities) -> (r: CapabilitiesInfo)
    ensures
        r == (CapabilitiesInfo {
            hard_mode_supported: caps.hard_mode_ok(),
            strict_memory_binding: caps.strict_memory_binding,
            strict_cpu_affinity: caps.strict_cpu_affinity,
            memory_locking: caps.memory_locking,
            numa_balancing_disabled: caps.numa_balancing_disabled,
            numa_node_count: caps.numa_node_count,
            is_numa_system: caps.numa_node_count > 1,
        }),
{
    CapabilitiesInfo {
        hard_mode_supported: caps.supports_hard_mode(),
        strict_memory_binding: caps.strict_memory_binding,
        strict_cpu_affinity: caps.strict_cpu_affinity,
        memory_locking: caps.memory_locking,
        numa_balancing_disabled: caps.numa_balancing_disabled,
        numa_node_count: caps.numa_node_count,
        is_numa_system: caps.is_numa_system(),
    }
}

/// Whether node `n` holds one of the CPUs of `cpus`.
pub open spec fn touches(n: crate::topo::NodeInfo, cpus: Set<u32>) -> bool {
    exists|c: u32| n.cpus.contains(c) && cpus.contains(c)
}

/// The IDs of the nodes, in order, that hold one of the CPUs of `cpus`.
pub open spec fn spanned_nodes(nodes: Seq<crate::topo::NodeInfo>, cpus: Set<u32>) -> Seq<u32>
    decreases nodes.len(),
{
    if nodes.len() == 0 {
        Seq::empty()
    } else {
        let r = spanned_nodes(nodes.drop_last(), cpus);
        if touches(nodes.last(), cpus) {
            r.push(nodes.last().id.0)
        } else {
            r
        }
    }
}

/// The IDs of the topology's nodes that hold one of the CPUs of `cpus`.
pub fn nodes_spanned(topo: &Topology, cpus: &CpuSet) -> (r: Vec<u32>)
    ensures
        r@ == spanned_nodes(topo@.nodes, cpus@),
{
    let nodes = topo.numa_nodes();
    let ghost views = topo@.nodes;
    let mut out: Vec<u32> = Vec::new();
    let mut i: usize = 0;
    assert(views.take(0) =~= Seq::<crate::topo::NodeInfo>::empty());
    while i < nodes.len()
        invariant
            i <= nodes@.len(),
            views == nodes@.map_values(|n: NumaNode| n@),
            out@ == spanned_nodes(views.take(i as int), cpus@),
        decreases nodes@.len() - i,
    {
        let n = &nodes[i];
        assert(views[i as int] == n@);
        assert(views.take(i + 1).drop_last() =~= views.take(i as int));
        assert(views.take(i + 1).last() == n@);
        let common = n.cpus().intersection(cpus);
        if !common.is_empty() {
            proof {
                if !(exists|c: u32| common@.contains(c)) {
                    assert(common@ =~= Set::<u32>::empty());
                }
                let c = choose|c: u32| common@.contains(c);
                assert(n@.cpus.contains(c) && cpus@.contains(c));
            }
            out.push(n.id().as_u32());
        } else {
            proof {
                assert forall|c: u32| !(n@.cpus.contains(c) && cpus@.contains(c)) by {
                    assert(!common@.contains(c));
                }
            }
        }
        i = i + 1;
    }
    assert(views.take(nodes@.len() as int) =~= views);
    out
}

/// The affinity record: the CPU list, how many CPUs, the nodes it spans,
/// and whether that is a single node.
pub fn build_affinity_info(topo: &Topology, affinity: &CpuSet) -> (r: AffinityInfo)
    ensures
        r.cpus@ == cpu_list_text(affinity@, ","@),
        r.cpu_count == affinity@.len(),
        r.nodes@ == spanned_nodes(topo@.nodes, affinity@),
        r.is_node_local == (spanned_nodes(topo@.nodes, affinity@).len() == 1),
{
    let nodes = nodes_spanned(topo, affinity);
    let local = nodes.len() == 1;
    AffinityInfo {
        cpus: format_cpu_list(affinity, ","),
        cpu_count: affinity.count(),
        nodes,
        is_node_local: local,
    }
}

/// The full record: topology, capabilities, and the affinity when it could
/// be read.
pub fn build_full_info(topo: &Topology, caps: &Capabilities, affinity: Option<&CpuSet>) -> (r: FullSystemInfo)
    ensures
        r.topology.node_count == topo@.nodes.len(),
        r.capabilities == (CapabilitiesInfo {
            hard_mode_supported: caps.hard_mode_ok(),
            strict_memory_binding: caps.strict_memory_binding,
            strict_cpu_affinity: caps.strict_cpu_affinity,
            memory_locking: caps.memory_locking,
            numa_balancing_disabled: caps.numa_balancing_disabled,
            numa_node_count: caps.numa_node_count,
            is_numa_system: caps.numa_node_count > 1,
        }),
        r.affinity is Some <==> affinity is Some,
        r.affinity matches Some(a) ==> a.nodes@ == spanned_nodes(topo@.nodes, affinity.unwrap()@),
{
    FullSystemInfo {
        topology: build_topology_info(topo),
        capabilities: build_capabilities_info(caps),
        affinity: match affinity {
            Some(a) => Some(build_affinity_info(topo, a)),
            None => None,
        },
    }
}

} // verus!
