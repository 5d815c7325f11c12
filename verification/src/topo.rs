//! NUMA nodes and the topology they form.
use vstd::prelude::*;

use std::collections::HashMap;

use crate::bits::below;
use crate::cpulist::range_list;
use crate::text::{dec, push_decimal, push_str};
use crate::types::{ascending, lemma_ascending, CpuSet, NodeId};

verus! {

broadcast use vstd::std_specs::hash::group_hash_axioms;

/// What a `NumaNode` holds.
pub struct NodeInfo {
    pub id: NodeId,
    pub cpus: Set<u32>,
    pub memory_bytes: Option<u64>,
    pub distances: Seq<u32>,
}

/// Represents a single NUMA node in the system: a group of CPUs that share
/// local memory.
#[derive(Debug, Clone)]
pub struct NumaNode {
    id: NodeId,
    cpus: CpuSet,
    memory_bytes: Option<u64>,
    distances: Vec<u32>,
}

impl View for NumaNode {
    type V = NodeInfo;

    closed spec fn view(&self) -> NodeInfo {
        NodeInfo {
            id: self.id,
            cpus: self.cpus@,
            memory_bytes: self.memory_bytes,
            distances: self.distances@,
        }
    }
}

/// The display text of a node id: "node" and its number.
pub open spec fn node_name(id: NodeId) -> Seq<char> {
    "node"@ + dec(id.0 as nat)
}

/// Appends the display text of a node id.
pub fn push_node_name(s: &mut String, id: NodeId)
    ensures
        final(s)@ == old(s)@ + node_name(id),
{
    push_str(s, "node");
    push_decimal(s, id.0 as u64);
    assert(final(s)@ =~= old(s)@ + node_name(id));
}

impl NodeId {
    /// The display text: "node" followed by the number ("node5").
    pub fn to_string(&self) -> (r: String)
        ensures
            r@ == node_name(*self),
    {
        let mut s = String::new();
        push_node_name(&mut s, *self);
        assert(s@ =~= node_name(*self));
        s
    }
}

impl NumaNode {
    /// Create a new NUMA node with no memory size and no distance table.
    pub fn new(id: NodeId, cpus: CpuSet) -> (r: Self)
        ensures
            r@.id == id,
            r@.cpus == cpus@,
            r@.memory_bytes is None,
            r@.distances == Seq::<u32>::empty(),
    {
        NumaNode { id, cpus, memory_bytes: None, distances: Vec::new() }
    }

    /// Set the total memory for this node.
    pub fn with_memory(self, bytes: u64) -> (r: Self)
        ensures
            r@ == (NodeInfo { memory_bytes: Some(bytes), ..self@ }),
    {
        let mut n = self;
        n.memory_bytes = Some(bytes);
        n
    }

    /// Set the distance table for this node (builder pattern).
    pub fn with_distances(self, distances: Vec<u32>) -> (r: Self)
        ensures
            r@ == (NodeInfo { distances: distances@, ..self@ }),
    {
        let mut n = self;
        n.distances = distances;
        n
    }

    /// Set the distance table for this node (in-place).
    pub fn set_distances(&mut self, distances: Vec<u32>)
        ensures
            final(self)@ == (NodeInfo { distances: distances@, ..old(self)@ }),
    {
        self.distances = distances;
    }

    /// Get the node identifier.
    pub fn id(&self) -> (r: NodeId)
        ensures
            r == self@.id,
    {
        self.id
    }

    /// Get the CPUs belonging to this node.
    pub fn cpus(&self) -> (r: &CpuSet)
        ensures
            r@ == self@.cpus,
    {
        &self.cpus
    }

    /// Get the number of CPUs on this node.
    pub fn cpu_count(&self) -> (r: usize)
        ensures
            r == self@.cpus.len(),
    {
        self.cpus.count()
    }

    /// Get the total memory in bytes, if known.
    pub fn memory_bytes(&self) -> (r: Option<u64>)
        ensures
            r == self@.memory_bytes,
    {
        self.memory_bytes
    }

    /// Get the total memory in megabytes (rounded down), if known.
    pub fn memory_mb(&self) -> (r: Option<u64>)
        ensures
            r == match self@.memory_bytes {
                Some(b) => Some((b / 1048576u64) as u64),
                None => None,
            },
    {
        match self.memory_bytes {
            Some(b) => Some(b / 1048576u64),
            None => None,
        }
    }

    /// Get the distance to another node, if the distance table has an entry
    /// for it. A distance of 10 typically represents local access.
    pub fn distance_to(&self, other: NodeId) -> (r: Option<u32>)
        ensures
            r == if (other.0 as int) < self@.distances.len() {
                Some(self@.distances[other.0 as int])
            } else {
                None
            },
    {
        let idx = other.0 as usize;
        if idx < self.distances.len() {
            Some(self.distances[idx])
        } else {
            None
        }
    }

    /// Check if access to `other` is local (known distance of at most 10).
    pub fn is_local(&self, other: NodeId) -> (r: bool)
        ensures
            r == ((other.0 as int) < self@.distances.len() && self@.distances[other.0 as int] <= 10),
    {
        match self.distance_to(other) {
            Some(d) => d <= 10,
            None => false,
        }
    }

    /// The display text: "node0 (CPUs: 0-3)" followed by ", N MB" when the
    /// memory size is known.
    pub fn to_string(&self) -> (r: String)
        ensures
            r@ == node_name(self@.id) + " (CPUs: "@ + range_list(ascending(self@.cpus, 1024), ","@) + ")"@
                + match self@.memory_bytes {
                Some(b) => ", "@ + dec((b / 1048576u64) as nat) + " MB"@,
                None => Seq::<char>::empty(),
            },
    {
        let mut s = String::new();
        push_node_name(&mut s, self.id);
        push_str(&mut s, " (CPUs: ");
        let cpus = self.cpus.to_string();
        push_str(&mut s, cpus.as_str());
        push_str(&mut s, ")");
        let ghost head = s@;
        match self.memory_mb() {
            Some(mb) => {
                push_str(&mut s, ", ");
                push_decimal(&mut s, mb);
                push_str(&mut s, " MB");
            },
            None => {},
        }
        assert(s@ =~= node_name(self@.id) + " (CPUs: "@ + range_list(ascending(self@.cpus, 1024), ","@) + ")"@
            + match self@.memory_bytes {
            Some(b) => ", "@ + dec((b / 1048576u64) as nat) + " MB"@,
            None => Seq::<char>::empty(),
        });
        s
    }
}

/// The CPU-to-node map of a list of nodes: each CPU maps to the last node
/// of the list that holds it.
pub open spec fn cpu_map(nodes: Seq<NodeInfo>) -> Map<u32, NodeId>
    decreases nodes.len(),
{
    if nodes.len() == 0 {
        Map::empty()
    } else {
        let last = nodes.last();
        cpu_map(nodes.drop_last()).union_prefer_right(
            Map::new(|c: u32| last.cpus.contains(c), |c: u32| last.id),
        )
    }
}

/// The number of CPUs of the nodes, counted once per node that holds them.
pub open spec fn total_cpus(nodes: Seq<NodeInfo>) -> nat
    decreases nodes.len(),
{
    if nodes.len() == 0 {
        0
    } else {
        total_cpus(nodes.drop_last()) + nodes.last().cpus.len()
    }
}

/// What a `Topology` holds: its nodes, in order.
pub struct TopologyInfo {
    pub nodes: Seq<NodeInfo>,
}

/// The discovered NUMA topology of the system.
///
/// `Topology` is immutable after creation. It maps each CPU to its node and
/// counts the CPUs of all nodes.
#[derive(Debug)]
pub struct Topology {
    nodes: Vec<NumaNode>,
    cpu_to_node: HashMap<u32, NodeId>,
    total_cpus: usize,
}

impl View for Topology {
    type V = TopologyInfo;

    closed spec fn view(&self) -> TopologyInfo {
        TopologyInfo { nodes: self.nodes@.map_values(|n: NumaNode| n@) }
    }
}

impl Topology {
    #[verifier::type_invariant]
    closed spec fn wf(&self) -> bool {
        &&& self.cpu_to_node@ == cpu_map(self@.nodes)
        &&& self.total_cpus == total_cpus(self@.nodes)
    }

    /// Create a topology from pre-discovered nodes.
    ///
    /// Every CPU of every node is counted, and each CPU maps to the last
    /// node that lists it.
    pub fn from_nodes(nodes: Vec<NumaNode>) -> (r: Self)
        requires
            total_cpus(nodes@.map_values(|n: NumaNode| n@)) <= usize::MAX,
        ensures
            r@.nodes == nodes@.map_values(|n: NumaNode| n@),
    {
        let ghost views = nodes@.map_values(|n: NumaNode| n@);
        let mut cpu_to_node: HashMap<u32, NodeId> = HashMap::new();
        let mut total: usize = 0;
        let mut i: usize = 0;
        proof {
            assert(views.take(0) =~= Seq::<NodeInfo>::empty());
        }
        while i < nodes.len()
            invariant
                i <= nodes@.len(),
                views == nodes@.map_values(|n: NumaNode| n@),
                total_cpus(views) <= usize::MAX,
                cpu_to_node@ == cpu_map(views.take(i as int)),
                total == total_cpus(views.take(i as int)),
                total_cpus(views.take(i as int)) <= total_cpus(views),
            decreases nodes@.len() - i,
        {
            let node = &nodes[i];
            let cpus = node.cpus.iter();
            let id = node.id;
            let ghost before = cpu_to_node@;
            let ghost nv = views[i as int];
            assert(nv == node@);
            proof {
                lemma_ascending(node.cpus@, 1024);
                node.cpus.lemma_view_bounded();
                assert(below(node.cpus@, 1024) =~= node.cpus@);
                lemma_total_prefix(views, i as int + 1);
                assert(views.take(i + 1).drop_last() =~= views.take(i as int));
            }
            let mut j: usize = 0;
            while j < cpus.len()
                invariant
                    j <= cpus@.len(),
                    cpus@ == ascending(nv.cpus, 1024),
                    cpus@.len() == nv.cpus.len(),
                    forall|c: u32| #[trigger] cpus@.contains(c) <==> nv.cpus.contains(c),
                    forall|a: int, b: int| 0 <= a < b < cpus@.len() ==> cpus@[a] < cpus@[b],
                    cpu_to_node@ == before.union_prefer_right(
                        Map::new(|c: u32| cpus@.take(j as int).contains(c), |c: u32| id),
                    ),
                    total as int == total_cpus(views.take(i as int)) + j,
                    total_cpus(views.take(i as int)) + nv.cpus.len() <= usize::MAX,
                    id == nv.id,
                decreases cpus@.len() - j,
            {
                let cpu = cpus[j];
                cpu_to_node.insert(cpu, id);
                total = total + 1;
                proof {
                    crate::bits::lemma_push_contains(cpus@.take(j as int), cpu);
                    assert(cpus@.take(j + 1) =~= cpus@.take(j as int).push(cpu));
                    assert(cpu_to_node@ =~= before.union_prefer_right(
                        Map::new(|c: u32| cpus@.take(j + 1).contains(c), |c: u32| id),
                    ));
                }
                j = j + 1;
            }
            proof {
                assert(cpus@.take(cpus@.len() as int) =~= cpus@);
                assert(Map::new(|c: u32| cpus@.contains(c), |c: u32| id) =~= Map::new(
                    |c: u32| nv.cpus.contains(c),
                    |c: u32| nv.id,
                ));
            }
            i = i + 1;
        }
        assert(views.take(nodes@.len() as int) =~= views);
        Topology { nodes, cpu_to_node, total_cpus: total }
    }

    /// Create a single-node topology (node 0 holding `cpus`) as a fallback.
    pub fn single_node(cpus: CpuSet) -> (r: Self)
        ensures
            r@.nodes.len() == 1,
            r@.nodes[0].id == NodeId(0),
            r@.nodes[0].cpus == cpus@,
            r@.nodes[0].memory_bytes is None,
            r@.nodes[0].distances == Seq::<u32>::empty(),
    {
        let node = NumaNode::new(NodeId::new(0), cpus);
        let ghost nv = node@;
        let mut nodes: Vec<NumaNode> = Vec::new();
        nodes.push(node);
        proof {
            let views = nodes@.map_values(|n: NumaNode| n@);
            assert(views.drop_last() =~= Seq::<NodeInfo>::empty());
            assert(views.last() == nv);
            assert(total_cpus(views.drop_last()) == 0);
            cpus.lemma_view_bounded();
            assert(total_cpus(views) == cpus@.len());
        }
        Topology::from_nodes(nodes)
    }

    /// Get all NUMA nodes in the system.
    pub fn numa_nodes(&self) -> (r: &[NumaNode])
        ensures
            r@.map_values(|n: NumaNode| n@) == self@.nodes,
    {
        self.nodes.as_slice()
    }

    /// Get the number of NUMA nodes.
    pub fn node_count(&self) -> (r: usize)
        ensures
            r == self@.nodes.len(),
    {
        self.nodes.len()
    }

    /// Get the total number of CPUs (a CPU listed by several nodes counts
    /// once per node).
    pub fn cpu_count(&self) -> (r: usize)
        ensures
            r == total_cpus(self@.nodes),
    {
        proof {
            use_type_invariant(self);
        }
        self.total_cpus
    }

    /// Check if this is a single-node (non-NUMA) system.
    pub fn is_single_node(&self) -> (r: bool)
        ensures
            r == (self@.nodes.len() == 1),
    {
        self.nodes.len() == 1
    }

    /// Get the first node with the given ID.
    pub fn node(&self, id: NodeId) -> (r: Option<&NumaNode>)
        ensures
            match r {
                Some(n) => exists|i: int|
                    0 <= i < self@.nodes.len() && self@.nodes[i] == n@ && n@.id == id && forall|j: int|
                        0 <= j < i ==> (#[trigger] self@.nodes[j]).id != id,
                None => forall|j: int| 0 <= j < self@.nodes.len() ==> (#[trigger] self@.nodes[j]).id != id,
            },
    {
        let mut i: usize = 0;
        while i < self.nodes.len()
            invariant
                i <= self.nodes@.len(),
                self@.nodes == self.nodes@.map_values(|n: NumaNode| n@),
                forall|j: int| 0 <= j < i ==> (#[trigger] self@.nodes[j]).id != id,
            decreases self.nodes@.len() - i,
        {
            if self.nodes[i].id == id {
                assert(self@.nodes[i as int] == self.nodes@[i as int]@);
                return Some(&self.nodes[i]);
            }
            i = i + 1;
        }
        None
    }

    /// The CPUs of the first node with ID `node`, or the empty set if there
    /// is no such node.
    pub fn cpu_set(&self, node: NodeId) -> (r: CpuSet)
        ensures
            (exists|i: int| 0 <= i < self@.nodes.len() && self@.nodes[i].id == node) ==> exists|i: int|
                0 <= i < self@.nodes.len() && r@ == self@.nodes[i].cpus && self@.nodes[i].id == node
                    && forall|j: int| 0 <= j < i ==> (#[trigger] self@.nodes[j]).id != node,
            (forall|j: int| 0 <= j < self@.nodes.len() ==> (#[trigger] self@.nodes[j]).id != node) ==> r@
                == Set::<u32>::empty(),
    {
        match self.node(node) {
            Some(n) => *n.cpus(),
            None => CpuSet::new(),
        }
    }

    /// Get the node that contains a specific CPU (the last listed node
    /// holding it).
    pub fn node_for_cpu(&self, cpu: u32) -> (r: Option<NodeId>)
        ensures
            r == if cpu_map(self@.nodes).contains_key(cpu) {
                Some(cpu_map(self@.nodes)[cpu])
            } else {
                None
            },
    {
        proof {
            use_type_invariant(self);
        }
        match self.cpu_to_node.get(&cpu) {
            Some(n) => Some(*n),
            None => None,
        }
    }

    /// The (id, node) pairs of the topology, in order.
    pub fn iter(&self) -> (r: Vec<(NodeId, &NumaNode)>)
        ensures
            r@.len() == self@.nodes.len(),
            forall|i: int|
                0 <= i < r@.len() ==> (#[trigger] r@[i]).0 == self@.nodes[i].id && r@[i].1@ == self@.nodes[i],
    {
        let mut out: Vec<(NodeId, &NumaNode)> = Vec::new();
        let mut i: usize = 0;
        while i < self.nodes.len()
            invariant
                i <= self.nodes@.len(),
                self@.nodes == self.nodes@.map_values(|n: NumaNode| n@),
                out@.len() == i,
                forall|k: int|
                    0 <= k < i ==> (#[trigger] out@[k]).0 == self@.nodes[k].id && out@[k].1@ == self@.nodes[k],
            decreases self.nodes@.len() - i,
        {
            let n = &self.nodes[i];
            out.push((n.id, n));
            i = i + 1;
        }
        out
    }

    /// The display text: "Topology(N nodes, M CPUs)".
    pub fn to_string(&self) -> (r: String)
        ensures
            r@ == "Topology("@ + dec(self@.nodes.len()) + " nodes, "@ + dec(total_cpus(self@.nodes)) + " CPUs)"@,
    {
        let mut s = String::new();
        push_str(&mut s, "Topology(");
        push_decimal(&mut s, self.node_count() as u64);
        push_str(&mut s, " nodes, ");
        push_decimal(&mut s, self.cpu_count() as u64);
        push_str(&mut s, " CPUs)");
        assert(s@ =~= "Topology("@ + dec(self@.nodes.len()) + " nodes, "@ + dec(total_cpus(self@.nodes)) + " CPUs)"@);
        s
    }

    /// A human-readable summary: a header line with the node and CPU counts,
    /// then one indented line per node.
    pub fn summary(&self) -> (r: String)
        ensures
            r@ == "NUMA Topology: "@ + dec(self@.nodes.len()) + " nodes, "@ + dec(total_cpus(self@.nodes))
                + " CPUs\n"@ + node_lines(self@.nodes),
    {
        let mut s = String::new();
        push_str(&mut s, "NUMA Topology: ");
        push_decimal(&mut s, self.node_count() as u64);
        push_str(&mut s, " nodes, ");
        push_decimal(&mut s, self.cpu_count() as u64);
        push_str(&mut s, " CPUs\n");
        let ghost head = s@;
        let ghost views = self@.nodes;
        let mut i: usize = 0;
        assert(views.take(0) =~= Seq::<NodeInfo>::empty());
        while i < self.nodes.len()
            invariant
                i <= self.nodes@.len(),
                views == self.nodes@.map_values(|n: NumaNode| n@),
                s@ == head + node_lines(views.take(i as int)),
            decreases self.nodes@.len() - i,
        {
            assert(views.take(i + 1).drop_last() =~= views.take(i as int));
            assert(views.take(i + 1).last() == self.nodes@[i as int]@);
            push_str(&mut s, "  ");
            let line = self.nodes[i].to_string();
            push_str(&mut s, line.as_str());
            push_str(&mut s, "\n");
            assert(s@ =~= head + node_lines(views.take(i + 1)));
            i = i + 1;
        }
        assert(views.take(self.nodes@.len() as int) =~= views);
        s
    }
}

/// The text of one node as `NumaNode::to_string` writes it.
pub open spec fn node_text(n: NodeInfo) -> Seq<char> {
    node_name(n.id) + " (CPUs: "@ + range_list(ascending(n.cpus, 1024), ","@) + ")"@ + match n.memory_bytes {
        Some(b) => ", "@ + dec((b / 1048576u64) as nat) + " MB"@,
        None => Seq::<char>::empty(),
    }
}

/// One indented line per node.
pub open spec fn node_lines(nodes: Seq<NodeInfo>) -> Seq<char>
    decreases nodes.len(),
{
    if nodes.len() == 0 {
        Seq::empty()
    } else {
        node_lines(nodes.drop_last()) + "  "@ + node_text(nodes.last()) + "\n"@
    }
}

/// The CPU total of a prefix of the nodes is at most the total of all.
pub proof fn lemma_total_prefix(nodes: Seq<NodeInfo>, i: int)
    requires
        0 <= i <= nodes.len(),
    ensures
        total_cpus(nodes.take(i)) <= total_cpus(nodes),
    decreases nodes.len() - i,
{
    if i < nodes.len() {
        lemma_total_prefix(nodes, i + 1);
        assert(nodes.take(i + 1).drop_last() =~= nodes.take(i));
    } else {
        assert(nodes.take(i) =~= nodes);
    }
}

} // verus!
