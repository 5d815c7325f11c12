//! NUMA-aware scheduling decisions: work-stealing order, per-node queues,
//! what a worker does next, and executor configuration.
use vstd::prelude::*;

use std::collections::VecDeque;
use std::sync::Arc;

use crate::mode::HardMode;
use crate::topo::{NodeInfo, NumaNode, Topology};
use crate::types::NodeId;

verus! {

/// Configures how workers steal work from other nodes when their local
/// queue is empty.
#[derive(Debug, Clone, Copy, PartialEq, Eq, Structural)]
pub enum StealPolicy {
    /// Never steal from other nodes.
    LocalOnly,
    /// Steal from closer nodes first, based on NUMA distance.
    LocalThenSocketThenRemote,
    /// Steal from any node without locality preference.
    Any,
}

impl Default for StealPolicy {
    fn default() -> (r: Self)
        ensures
            r == StealPolicy::LocalThenSocketThenRemote,
    {
        StealPolicy::LocalThenSocketThenRemote
    }
}

/// The position of the first node with ID `id`, or -1.
pub open spec fn find_node(nodes: Seq<NodeInfo>, id: NodeId) -> int
    decreases nodes.len(),
{
    if nodes.len() == 0 {
        -1
    } else if nodes[0].id == id {
        0
    } else {
        let r = find_node(nodes.drop_first(), id);
        if r < 0 {
            -1
        } else {
            r + 1
        }
    }
}

/// `find_node` is the position of the first node with the ID.
pub proof fn lemma_find_node(nodes: Seq<NodeInfo>, id: NodeId)
    ensures
        -1 <= find_node(nodes, id) < nodes.len(),
        find_node(nodes, id) >= 0 ==> nodes[find_node(nodes, id)].id == id,
        forall|j: int| 0 <= j < nodes.len() && j < find_node(nodes, id) ==> (#[trigger] nodes[j]).id != id,
        find_node(nodes, id) < 0 ==> forall|j: int| 0 <= j < nodes.len() ==> (#[trigger] nodes[j]).id != id,
    decreases nodes.len(),
{
    if nodes.len() > 0 {
        let rest = nodes.drop_first();
        lemma_find_node(rest, id);
        assert forall|j: int| 0 <= j < nodes.len() && j < find_node(nodes, id) implies (#[trigger] nodes[j]).id != id by {
            if j > 0 {
                assert(nodes[j] == rest[j - 1]);
            }
        }
        if find_node(nodes, id) < 0 {
            assert forall|j: int| 0 <= j < nodes.len() implies (#[trigger] nodes[j]).id != id by {
                if j > 0 {
                    assert(nodes[j] == rest[j - 1]);
                }
            }
        }
    }
}

/// The distance from node `from` to node `n` used to order steals (the
/// largest `u32` when unknown).
pub open spec fn steal_key(from: NodeInfo, n: NodeId) -> nat {
    if (n.0 as int) < from.distances.len() {
        from.distances[n.0 as int] as nat
    } else {
        u32::MAX as nat
    }
}

/// Inserts `x` into `s` after every element whose key is at most its own.
pub open spec fn insert_by_key(s: Seq<NodeId>, x: NodeId, from: NodeInfo) -> Seq<NodeId>
    decreases s.len(),
{
    if s.len() == 0 {
        seq![x]
    } else if steal_key(from, s.last()) <= steal_key(from, x) {
        s.push(x)
    } else {
        insert_by_key(s.drop_last(), x, from).push(s.last())
    }
}

/// `s` stably sorted by distance from `from` (elements with equal keys
/// keep their order).
pub open spec fn sort_by_key(s: Seq<NodeId>, from: NodeInfo) -> Seq<NodeId>
    decreases s.len(),
{
    if s.len() == 0 {
        Seq::empty()
    } else {
        insert_by_key(sort_by_key(s.drop_last(), from), s.last(), from)
    }
}

/// The IDs of the nodes, in order, except `from`.
pub open spec fn other_ids(nodes: Seq<NodeInfo>, from: NodeId) -> Seq<NodeId>
    decreases nodes.len(),
{
    if nodes.len() == 0 {
        Seq::empty()
    } else {
        let r = other_ids(nodes.drop_last(), from);
        if nodes.last().id != from {
            r.push(nodes.last().id)
        } else {
            r
        }
    }
}

/// The nodes a worker of node `from` tries to steal from, in order.
pub open spec fn steal_order_of(policy: StealPolicy, from: NodeId, nodes: Seq<NodeInfo>) -> Seq<NodeId> {
    match policy {
        StealPolicy::LocalOnly => Seq::empty(),
        StealPolicy::Any => other_ids(nodes, from),
        StealPolicy::LocalThenSocketThenRemote => {
            let k = find_node(nodes, from);
            if k >= 0 {
                sort_by_key(other_ids(nodes, from), nodes[k])
            } else {
                other_ids(nodes, from)
            }
        },
    }
}

/// Inserting after the last element of key at most `x`'s equals splicing
/// `x` in at that position.
proof fn lemma_insert_split(s: Seq<NodeId>, x: NodeId, from: NodeInfo, p: int)
    requires
        0 <= p <= s.len(),
        p == 0 || steal_key(from, s[p - 1]) <= steal_key(from, x),
        forall|j: int| p <= j < s.len() ==> steal_key(from, #[trigger] s[j]) > steal_key(from, x),
    ensures
        insert_by_key(s, x, from) == s.take(p).push(x) + s.skip(p),
    decreases s.len(),
{
    if s.len() == p {
        if s.len() == 0 {
            assert(s.take(p).push(x) + s.skip(p) =~= seq![x]);
        } else {
            assert(s.take(p).push(x) + s.skip(p) =~= s.push(x));
        }
    } else {
        assert(steal_key(from, s.last()) > steal_key(from, x));
        lemma_insert_split(s.drop_last(), x, from, p);
        assert(s.drop_last().take(p) =~= s.take(p));
        assert((s.take(p).push(x) + s.drop_last().skip(p)).push(s.last()) =~= s.take(p).push(x) + s.skip(p));
    }
}

/// The distance key of `n` as seen from the node `from`.
fn key_of(from: &NumaNode, n: NodeId) -> (r: u32)
    ensures
        r as nat == steal_key(from@, n),
{
    match from.distance_to(n) {
        Some(d) => d,
        None => u32::MAX,
    }
}

/// Stably sorts `ids` by distance from `from`.
fn sort_ids_by_distance(ids: Vec<NodeId>, from: &NumaNode) -> (r: Vec<NodeId>)
    ensures
        r@ == sort_by_key(ids@, from@),
{
    let mut out: Vec<NodeId> = Vec::new();
    let mut i: usize = 0;
    assert(ids@.take(0) =~= Seq::<NodeId>::empty());
    while i < ids.len()
        invariant
            i <= ids@.len(),
            out@ == sort_by_key(ids@.take(i as int), from@),
        decreases ids@.len() - i,
    {
        let x = ids[i];
        let kx = key_of(from, x);
        let mut p = out.len();
        while p > 0 && key_of(from, out[p - 1]) > kx
            invariant
                p <= out@.len(),
                kx as nat == steal_key(from@, x),
                forall|j: int| p <= j < out@.len() ==> steal_key(from@, #[trigger] out@[j]) > steal_key(from@, x),
            decreases p,
        {
            p = p - 1;
        }
        proof {
            lemma_insert_split(out@, x, from@, p as int);
            assert(ids@.take(i + 1).drop_last() =~= ids@.take(i as int));
            assert(ids@.take(i + 1).last() == x);
        }
        out.insert(p, x);
        assert(out@ =~= sort_by_key(ids@.take(i + 1), from@)) by {
            assert(out@ =~= old_splice(sort_by_key(ids@.take(i as int), from@), p as int, x));
        }
        i = i + 1;
    }
    assert(ids@.take(ids@.len() as int) =~= ids@);
    out
}

/// `s` with `x` spliced in at position `p`.
spec fn old_splice(s: Seq<NodeId>, p: int, x: NodeId) -> Seq<NodeId> {
    s.take(p).push(x) + s.skip(p)
}

impl StealPolicy {
    /// The ordered list of nodes a worker of `from_node` tries to steal
    /// from; `from_node` itself is never listed.
    pub fn steal_order(&self, from_node: NodeId, topo: &Topology) -> (r: Vec<NodeId>)
        ensures
            r@ == steal_order_of(*self, from_node, topo@.nodes),
    {
        match self {
            StealPolicy::LocalOnly => Vec::new(),
            StealPolicy::Any => collect_other_ids(topo, from_node),
            StealPolicy::LocalThenSocketThenRemote => {
                let nodes = collect_other_ids(topo, from_node);
                proof {
                    lemma_find_node(topo@.nodes, from_node);
                }
                match topo.node(from_node) {
                    Some(from) => {
                        proof {
                            let k = find_node(topo@.nodes, from_node);
                            let i = choose|i: int|
                                0 <= i < topo@.nodes.len() && topo@.nodes[i] == from@ && from@.id == from_node
                                    && forall|j: int| 0 <= j < i ==> (#[trigger] topo@.nodes[j]).id != from_node;
                            if k < i {
                                assert(topo@.nodes[k].id != from_node);
                            }
                            if i < k {
                                assert(topo@.nodes[i].id != from_node);
                            }
                            assert(k == i);
                        }
                        sort_ids_by_distance(nodes, from)
                    },
                    None => nodes,
                }
            },
        }
    }

    /// Check if this policy allows stealing from other nodes.
    pub fn allows_stealing(&self) -> (r: bool)
        ensures
            r == (*self != StealPolicy::LocalOnly),
    {
        !matches!(self, StealPolicy::LocalOnly)
    }

    /// The display text.
    pub fn to_str(&self) -> (r: &'static str)
        ensures
            r@ == match *self {
                StealPolicy::LocalOnly => "local-only"@,
                StealPolicy::LocalThenSocketThenRemote => "local-then-socket-then-remote"@,
                StealPolicy::Any => "any"@,
            },
    {
        match self {
            StealPolicy::LocalOnly => "local-only",
            StealPolicy::LocalThenSocketThenRemote => "local-then-socket-then-remote",
            StealPolicy::Any => "any",
        }
    }
}

/// The IDs of the topology's nodes, in order, except `from`.
fn collect_other_ids(topo: &Topology, from: NodeId) -> (r: Vec<NodeId>)
    ensures
        r@ == other_ids(topo@.nodes, from),
{
    let nodes = topo.numa_nodes();
    let ghost views = topo@.nodes;
    let mut out: Vec<NodeId> = Vec::new();
    let mut i: usize = 0;
    assert(views.take(0) =~= Seq::<NodeInfo>::empty());
    while i < nodes.len()
        invariant
            i <= nodes@.len(),
            views == nodes@.map_values(|n: NumaNode| n@),
            out@ == other_ids(views.take(i as int), from),
        decreases nodes@.len() - i,
    {
        let id = nodes[i].id();
        assert(views.take(i + 1).drop_last() =~= views.take(i as int));
        assert(views.take(i + 1).last() == nodes@[i as int]@);
        if id != from {
            out.push(id);
        }
        i = i + 1;
    }
    assert(views.take(nodes@.len() as int) =~= views);
    out
}

/// A work queue for a single NUMA node: the local worker takes the newest
/// task (LIFO, for cache locality); stealers take the oldest (FIFO).
pub struct NodeQueue<T> {
    tasks: VecDeque<T>,
}

impl<T> View for NodeQueue<T> {
    type V = Seq<T>;

    /// The queued tasks, oldest first.
    closed spec fn view(&self) -> Seq<T> {
        self.tasks@
    }
}

impl<T> Default for NodeQueue<T> {
    fn default() -> (r: Self)
        ensures
            r@ == Seq::<T>::empty(),
    {
        NodeQueue::new()
    }
}

impl<T> NodeQueue<T> {
    /// Create a new empty queue.
    pub fn new() -> (r: Self)
        ensures
            r@ == Seq::<T>::empty(),
    {
        NodeQueue { tasks: VecDeque::new() }
    }

    /// Push a task onto the local (newest) end of the queue.
    pub fn push(&mut self, task: T)
        ensures
            final(self)@ == old(self)@.push(task),
    {
        self.tasks.push_back(task);
    }

    /// Pop the newest task, if any.
    pub fn pop(&mut self) -> (r: Option<T>)
        ensures
            old(self)@.len() == 0 ==> r is None && final(self)@ == old(self)@,
            old(self)@.len() > 0 ==> r == Some(old(self)@.last()) && final(self)@ == old(self)@.drop_last(),
    {
        self.tasks.pop_back()
    }

    /// Steal the oldest task, if any.
    pub fn steal(&mut self) -> (r: Option<T>)
        ensures
            old(self)@.len() == 0 ==> r is None && final(self)@ == old(self)@,
            old(self)@.len() > 0 ==> r == Some(old(self)@[0]) && final(self)@ == old(self)@.drop_first(),
    {
        self.tasks.pop_front()
    }

    /// Get the number of tasks in the queue.
    pub fn len(&self) -> (r: usize)
        ensures
            r == self@.len(),
    {
        self.tasks.len()
    }

    /// Check if the queue is empty.
    pub fn is_empty(&self) -> (r: bool)
        ensures
            r == (self@.len() == 0),
    {
        self.tasks.len() == 0
    }
}

/// The position of the first node in `order` whose queue is non-empty, or -1.
pub open spec fn first_busy<T>(order: Seq<NodeId>, queues: Seq<Seq<T>>) -> int
    decreases order.len(),
{
    if order.len() == 0 {
        -1
    } else if queues[order[0].0 as int].len() > 0 {
        0
    } else {
        let r = first_busy(order.drop_first(), queues);
        if r < 0 {
            -1
        } else {
            r + 1
        }
    }
}

/// The views of the queues.
pub open spec fn queue_views<T>(queues: Seq<NodeQueue<T>>) -> Seq<Seq<T>> {
    queues.map_values(|q: NodeQueue<T>| q@)
}

/// Steals the oldest task of the first node in `order` whose queue is
/// not empty.
pub fn steal_in_order<T>(order: &Vec<NodeId>, queues: &mut Vec<NodeQueue<T>>) -> (r: Option<T>)
    requires
        forall|i: int| 0 <= i < order@.len() ==> (#[trigger] order@[i]).0 < old(queues)@.len(),
    ensures
        ({
            let qs = queue_views(old(queues)@);
            let k = first_busy(order@, qs);
            if k < 0 {
                r is None && queue_views(final(queues)@) == qs
            } else {
                let t = order@[k].0 as int;
                r == Some(qs[t][0]) && queue_views(final(queues)@) == qs.update(t, qs[t].drop_first())
            }
        }),
        final(queues)@.len() == old(queues)@.len(),
{
    let ghost qs = queue_views(queues@);
    let mut i: usize = 0;
    assert(order@.skip(0) =~= order@);
    while i < order.len()
        invariant
            i <= order@.len(),
            queues@ == old(queues)@,
            qs == queue_views(old(queues)@),
            forall|j: int| 0 <= j < order@.len() ==> (#[trigger] order@[j]).0 < old(queues)@.len(),
            forall|j: int| 0 <= j < i ==> qs[(#[trigger] order@[j]).0 as int].len() == 0,
            first_busy(order@, qs) == if first_busy(order@.skip(i as int), qs) < 0 {
                -1
            } else {
                first_busy(order@.skip(i as int), qs) + i
            },
        decreases order@.len() - i,
    {
        let t = order[i].0 as usize;
        assert(order@.skip(i as int)[0] == order@[i as int]);
        assert(order@.skip(i as int).drop_first() =~= order@.skip(i + 1));
        assert(qs[t as int] == queues@[t as int]@);
        if !queues[t].is_empty() {
            let mut q = queues.remove(t);
            let task = q.steal();
            queues.insert(t, q);
            assert(queue_views(queues@) =~= qs.update(t as int, qs[t as int].drop_first()));
            return task;
        }
        i = i + 1;
    }
    assert(order@.skip(order@.len() as int) =~= Seq::<NodeId>::empty());
    None
}

/// Try to steal a task for a worker of `node`, trying the nodes in the
/// order of the steal policy.
pub fn try_steal<T>(node: NodeId, policy: StealPolicy, topo: &Topology, queues: &mut Vec<NodeQueue<T>>) -> (r:
    Option<T>)
    requires
        forall|i: int| 0 <= i < topo@.nodes.len() ==> (#[trigger] topo@.nodes[i]).id.0 < old(queues)@.len(),
    ensures
        ({
            let qs = queue_views(old(queues)@);
            let order = steal_order_of(policy, node, topo@.nodes);
            let k = first_busy(order, qs);
            if k < 0 {
                r is None && queue_views(final(queues)@) == qs
            } else {
                let t = order[k].0 as int;
                r == Some(qs[t][0]) && queue_views(final(queues)@) == qs.update(t, qs[t].drop_first())
            }
        }),
        final(queues)@.len() == old(queues)@.len(),
{
    let order = policy.steal_order(node, topo);
    proof {
        lemma_order_in_topology(policy, node, topo@.nodes);
        assert forall|i: int| 0 <= i < order@.len() implies (#[trigger] order@[i]).0 < queues@.len() by {
            let j = choose|j: int| 0 <= j < topo@.nodes.len() && topo@.nodes[j].id == order@[i];
            assert(topo@.nodes[j].id.0 < queues@.len());
        }
    }
    steal_in_order(&order, queues)
}

/// Every node of a steal order is a node of the topology.
pub proof fn lemma_order_in_topology(policy: StealPolicy, from: NodeId, nodes: Seq<NodeInfo>)
    ensures
        forall|i: int|
            0 <= i < steal_order_of(policy, from, nodes).len() ==> exists|j: int|
                0 <= j < nodes.len() && nodes[j].id == #[trigger] steal_order_of(policy, from, nodes)[i],
{
    lemma_other_ids_in(nodes, from);
    lemma_find_node(nodes, from);
    let o = other_ids(nodes, from);
    let k = find_node(nodes, from);
    if policy == StealPolicy::LocalThenSocketThenRemote && k >= 0 {
        let sorted = sort_by_key(o, nodes[k]);
        lemma_sort_contains(o, nodes[k]);
        assert forall|i: int| 0 <= i < sorted.len() implies exists|j: int|
            0 <= j < nodes.len() && nodes[j].id == #[trigger] sorted[i] by {
            broadcast use vstd::seq_lib::group_to_multiset_ensures;
            let x = sorted[i];
            assert(sorted.contains(x));
            assert(sorted.to_multiset().count(x) > 0);
            assert(o.to_multiset().count(x) > 0);
            assert(o.contains(x));
            let m = choose|m: int| 0 <= m < o.len() && o[m] == x;
            assert(o[m] == x);
        }
    }
}

/// The IDs listed by `other_ids` are IDs of the nodes.
pub proof fn lemma_other_ids_in(nodes: Seq<NodeInfo>, from: NodeId)
    ensures
        forall|i: int|
            0 <= i < other_ids(nodes, from).len() ==> exists|j: int|
                0 <= j < nodes.len() && nodes[j].id == #[trigger] other_ids(nodes, from)[i],
        forall|i: int| 0 <= i < other_ids(nodes, from).len() ==> (#[trigger] other_ids(nodes, from)[i]) != from,
    decreases nodes.len(),
{
    if nodes.len() > 0 {
        lemma_other_ids_in(nodes.drop_last(), from);
        let r = other_ids(nodes.drop_last(), from);
        assert forall|i: int| 0 <= i < other_ids(nodes, from).len() implies exists|j: int|
            0 <= j < nodes.len() && nodes[j].id == #[trigger] other_ids(nodes, from)[i] by {
            if i < r.len() {
                let j = choose|j: int| 0 <= j < nodes.drop_last().len() && nodes.drop_last()[j].id == r[i];
                assert(nodes[j] == nodes.drop_last()[j]);
            } else {
                assert(nodes[nodes.len() - 1].id == other_ids(nodes, from)[i]);
            }
        }
    }
}

/// Sorting by distance keeps every element, as many times as it occurs.
pub proof fn lemma_sort_contains(s: Seq<NodeId>, from: NodeInfo)
    ensures
        sort_by_key(s, from).to_multiset() == s.to_multiset(),
        sort_by_key(s, from).len() == s.len(),
    decreases s.len(),
{
    broadcast use vstd::seq_lib::group_to_multiset_ensures;
    if s.len() == 0 {
        assert(s =~= sort_by_key(s, from));
    } else {
        lemma_sort_contains(s.drop_last(), from);
        lemma_insert_multiset(sort_by_key(s.drop_last(), from), s.last(), from);
        assert(s.drop_last().push(s.last()) =~= s);
        vstd::seq_lib::to_multiset_build(s.drop_last(), s.last());
    }
}

/// Inserting adds the element once.
pub proof fn lemma_insert_multiset(s: Seq<NodeId>, x: NodeId, from: NodeInfo)
    ensures
        insert_by_key(s, x, from).to_multiset() == s.to_multiset().insert(x),
        insert_by_key(s, x, from).len() == s.len() + 1,
    decreases s.len(),
{
    broadcast use vstd::seq_lib::group_seq_properties;
    if s.len() == 0 {
        assert(seq![x] =~= Seq::<NodeId>::empty().push(x));
    } else if steal_key(from, s.last()) <= steal_key(from, x) {
    } else {
        lemma_insert_multiset(s.drop_last(), x, from);
        assert(s =~= s.drop_last().push(s.last()));
    }
}

/// What a worker does next.
pub enum WorkerStep<T> {
    /// Run a task; `stolen_from` names the node it was stolen from, if any.
    Run { task: T, stolen_from: Option<NodeId> },
    /// No work: park briefly and look again.
    Park,
    /// Shut down: the local queue has been drained.
    Exit,
}

/// The next step of a worker of `node` (whose queue is at position
/// `node.0`): on shutdown, drain the local queue then exit; otherwise run
/// the newest local task, else steal (when the policy allows) the oldest
/// task of the first busy node in steal order, else park.
pub fn next_step<T>(
    node: NodeId,
    shutdown: bool,
    policy: StealPolicy,
    topo: &Topology,
    queues: &mut Vec<NodeQueue<T>>,
) -> (r: WorkerStep<T>)
    requires
        (node.0 as int) < old(queues)@.len(),
        forall|i: int| 0 <= i < topo@.nodes.len() ==> (#[trigger] topo@.nodes[i]).id.0 < old(queues)@.len(),
    ensures
        ({
            let qs = queue_views(old(queues)@);
            let me = node.0 as int;
            if qs[me].len() > 0 {
                r == WorkerStep::Run { task: qs[me].last(), stolen_from: None }
                    && queue_views(final(queues)@) == qs.update(me, qs[me].drop_last())
            } else if shutdown {
                r is Exit && queue_views(final(queues)@) == qs
            } else if policy == StealPolicy::LocalOnly {
                r is Park && queue_views(final(queues)@) == qs
            } else {
                let order = steal_order_of(policy, node, topo@.nodes);
                let k = first_busy(order, qs);
                if k < 0 {
                    r is Park && queue_views(final(queues)@) == qs
                } else {
                    let t = order[k].0 as int;
                    r == WorkerStep::Run { task: qs[t][0], stolen_from: Some(order[k]) }
                        && queue_views(final(queues)@) == qs.update(t, qs[t].drop_first())
                }
            }
        }),
        final(queues)@.len() == old(queues)@.len(),
{
    let ghost qs = queue_views(queues@);
    let me = node.0 as usize;
    assert(qs[me as int] == queues@[me as int]@);
    let mut q = queues.remove(me);
    let local = q.pop();
    queues.insert(me, q);
    match local {
        Some(task) => {
            assert(queue_views(queues@) =~= qs.update(me as int, qs[me as int].drop_last()));
            return WorkerStep::Run { task, stolen_from: None };
        },
        None => {
            assert(queue_views(queues@) =~= qs);
        },
    }
    if shutdown {
        return WorkerStep::Exit;
    }
    if !policy.allows_stealing() {
        return WorkerStep::Park;
    }
    let order = policy.steal_order(node, topo);
    proof {
        lemma_order_in_topology(policy, node, topo@.nodes);
        assert forall|i: int| 0 <= i < order@.len() implies (#[trigger] order@[i]).0 < queues@.len() by {
            let j = choose|j: int| 0 <= j < topo@.nodes.len() && topo@.nodes[j].id == order@[i];
            assert(topo@.nodes[j].id.0 < queues@.len());
        }
    }
    match first_busy_index(&order, queues) {
        Some(k) => {
            let from = order[k];
            match steal_in_order(&order, queues) {
                Some(t) => WorkerStep::Run { task: t, stolen_from: Some(from) },
                None => WorkerStep::Park,
            }
        },
        None => WorkerStep::Park,
    }
}

/// The position of the first node in `order` whose queue is non-empty.
fn first_busy_index<T>(order: &Vec<NodeId>, queues: &Vec<NodeQueue<T>>) -> (r: Option<usize>)
    requires
        forall|i: int| 0 <= i < order@.len() ==> (#[trigger] order@[i]).0 < queues@.len(),
    ensures
        match r {
            Some(k) => k as int == first_busy(order@, queue_views(queues@)) && k < order@.len(),
            None => first_busy(order@, queue_views(queues@)) < 0,
        },
{
    let ghost qs = queue_views(queues@);
    let mut i: usize = 0;
    assert(order@.skip(0) =~= order@);
    while i < order.len()
        invariant
            i <= order@.len(),
            qs == queue_views(queues@),
            forall|j: int| 0 <= j < order@.len() ==> (#[trigger] order@[j]).0 < queues@.len(),
            first_busy(order@, qs) == if first_busy(order@.skip(i as int), qs) < 0 {
                -1
            } else {
                first_busy(order@.skip(i as int), qs) + i
            },
        decreases order@.len() - i,
    {
        let t = order[i].0 as usize;
        assert(order@.skip(i as int)[0] == order@[i as int]);
        assert(order@.skip(i as int).drop_first() =~= order@.skip(i + 1));
        assert(qs[t as int] == queues@[t as int]@);
        if !queues[t].is_empty() {
            return Some(i);
        }
        i = i + 1;
    }
    assert(order@.skip(order@.len() as int) =~= Seq::<NodeId>::empty());
    None
}

/// The queue a task submitted to `node` goes to: the node's own queue, or
/// queue 0 when the node has none.
pub fn submit_target(node: NodeId, queue_count: usize) -> (r: usize)
    requires
        queue_count > 0,
    ensures
        r == if (node.0 as int) < queue_count {
            node.0 as int
        } else {
            0
        },
{
    let idx = node.0 as usize;
    if idx < queue_count {
        idx
    } else {
        0
    }
}

/// The total number of queued tasks.
pub open spec fn pending_of<T>(qs: Seq<Seq<T>>) -> nat
    decreases qs.len(),
{
    if qs.len() == 0 {
        0
    } else {
        pending_of(qs.drop_last()) + qs.last().len()
    }
}

/// The number of tasks waiting in all queues.
pub fn pending_tasks<T>(queues: &Vec<NodeQueue<T>>) -> (r: usize)
    requires
        pending_of(queue_views(queues@)) <= usize::MAX,
    ensures
        r == pending_of(queue_views(queues@)),
{
    let ghost qs = queue_views(queues@);
    let mut acc: usize = 0;
    let mut i: usize = 0;
    assert(qs.take(0) =~= Seq::<Seq<T>>::empty());
    while i < queues.len()
        invariant
            i <= queues@.len(),
            qs == queue_views(queues@),
            pending_of(qs) <= usize::MAX,
            acc == pending_of(qs.take(i as int)),
        decreases queues@.len() - i,
    {
        assert(qs.take(i + 1).drop_last() =~= qs.take(i as int));
        assert(qs.take(i + 1).last() == queues@[i as int]@);
        proof {
            lemma_pending_prefix(qs, i as int + 1);
        }
        acc = acc + queues[i].len();
        i = i + 1;
    }
    assert(qs.take(queues@.len() as int) =~= qs);
    acc
}

/// The pending count of a prefix is at most the total.
pub proof fn lemma_pending_prefix<T>(qs: Seq<Seq<T>>, i: int)
    requires
        0 <= i <= qs.len(),
    ensures
        pending_of(qs.take(i)) <= pending_of(qs),
    decreases qs.len() - i,
{
    if i < qs.len() {
        lemma_pending_prefix(qs, i + 1);
        assert(qs.take(i + 1).drop_last() =~= qs.take(i));
    } else {
        assert(qs.take(i) =~= qs);
    }
}

/// Builder for configuring a NUMA executor.
pub struct NumaExecutorBuilder {
    topo: Arc<Topology>,
    steal_policy: StealPolicy,
    workers_per_node: Option<usize>,
    hard_mode: HardMode,
}

/// The settings a builder holds.
pub struct BuilderSettings {
    pub steal_policy: StealPolicy,
    pub workers_per_node: Option<usize>,
    pub hard_mode: HardMode,
}

impl View for NumaExecutorBuilder {
    type V = BuilderSettings;

    closed spec fn view(&self) -> BuilderSettings {
        BuilderSettings {
            steal_policy: self.steal_policy,
            workers_per_node: self.workers_per_node,
            hard_mode: self.hard_mode,
        }
    }
}

/// The number of workers of a node: the configured count, or by default
/// the node's CPU count (at least 1).
pub open spec fn workers_for(per_node: Option<usize>, n: NodeInfo) -> nat {
    match per_node {
        Some(c) => c as nat,
        None => if n.cpus.len() >= 1 {
            n.cpus.len()
        } else {
            1
        },
    }
}

impl NumaExecutorBuilder {
    /// The topology the executor is built for.
    pub closed spec fn topo(&self) -> Topology {
        *self.topo
    }

    /// Create a new builder with the default steal policy, soft mode and
    /// one worker per CPU.
    pub fn new(topo: Arc<Topology>) -> (r: Self)
        ensures
            r.topo() == *topo,
            r@.steal_policy == StealPolicy::LocalThenSocketThenRemote,
            r@.workers_per_node is None,
            r@.hard_mode == HardMode::Soft,
    {
        NumaExecutorBuilder {
            topo,
            steal_policy: StealPolicy::default(),
            workers_per_node: None,
            hard_mode: HardMode::default(),
        }
    }

    /// Set the work stealing policy.
    pub fn steal_policy(self, policy: StealPolicy) -> (r: Self)
        ensures
            r.topo() == self.topo(),
            r@ == (BuilderSettings { steal_policy: policy, ..self@ }),
    {
        let mut b = self;
        b.steal_policy = policy;
        b
    }

    /// Set the number of workers per node.
    pub fn workers_per_node(self, count: usize) -> (r: Self)
        ensures
            r.topo() == self.topo(),
            r@ == (BuilderSettings { workers_per_node: Some(count), ..self@ }),
    {
        let mut b = self;
        b.workers_per_node = Some(count);
        b
    }

    /// Set the hard mode for worker pinning.
    pub fn hard_mode(self, mode: HardMode) -> (r: Self)
        ensures
            r.topo() == self.topo(),
            r@ == (BuilderSettings { hard_mode: mode, ..self@ }),
    {
        let mut b = self;
        b.hard_mode = mode;
        b
    }

    /// The topology the executor is built for.
    pub fn topology(&self) -> (r: &Arc<Topology>)
        ensures
            **r == self.topo(),
    {
        &self.topo
    }

    /// How many workers each node gets, in node order.
    pub fn worker_plan(&self) -> (r: Vec<(NodeId, usize)>)
        ensures
            r@.len() == self.topo()@.nodes.len(),
            forall|i: int|
                0 <= i < r@.len() ==> (#[trigger] r@[i]).0 == self.topo()@.nodes[i].id && r@[i].1 as nat
                    == workers_for(self@.workers_per_node, self.topo()@.nodes[i]),
    {
        let nodes = self.topo.numa_nodes();
        let ghost views = self.topo()@.nodes;
        let mut out: Vec<(NodeId, usize)> = Vec::new();
        let mut i: usize = 0;
        while i < nodes.len()
            invariant
                i <= nodes@.len(),
                views == nodes@.map_values(|n: NumaNode| n@),
                views == self.topo()@.nodes,
                out@.len() == i,
                forall|k: int|
                    0 <= k < i ==> (#[trigger] out@[k]).0 == views[k].id && out@[k].1 as nat == workers_for(
                        self@.workers_per_node,
                        views[k],
                    ),
            decreases nodes@.len() - i,
        {
            let n = &nodes[i];
            assert(views[i as int] == n@);
            let count = match self.workers_per_node {
                Some(c) => c,
                None => {
                    let c = n.cpu_count();
                    if c >= 1 {
                        c
                    } else {
                        1
                    }
                },
            };
            out.push((n.id(), count));
            i = i + 1;
        }
        out
    }

    /// The settings: steal policy, workers per node, and hard mode.
    pub fn settings(&self) -> (r: (StealPolicy, Option<usize>, HardMode))
        ensures
            r == (self@.steal_policy, self@.workers_per_node, self@.hard_mode),
    {
        (self.steal_policy, self.workers_per_node, self.hard_mode)
    }
}

/// A unit of work to be executed by the scheduler, with the node where it
/// preferably runs (its data's home), if any.
pub struct Task<F> {
    work: F,
    home_node: Option<NodeId>,
}

impl<F: FnOnce()> Task<F> {
    /// The work of the task.
    pub closed spec fn work(&self) -> F {
        self.work
    }

    /// The preferred node of the task, if any.
    pub closed spec fn home(&self) -> Option<NodeId> {
        self.home_node
    }

    /// Create a new task with no node preference.
    pub fn new(work: F) -> (r: Self)
        ensures
            r.work() == work,
            r.home() is None,
    {
        Task { work, home_node: None }
    }

    /// Create a new task with a preferred home node.
    pub fn with_home_node(work: F, home_node: NodeId) -> (r: Self)
        ensures
            r.work() == work,
            r.home() == Some(home_node),
    {
        Task { work, home_node: Some(home_node) }
    }

    /// Get the preferred home node, if specified.
    pub fn home_node(&self) -> (r: Option<NodeId>)
        ensures
            r == self.home(),
    {
        self.home_node
    }

    /// Execute the task, consuming it.
    pub fn run(self)
        requires
            self.work().requires(()),
        ensures
            self.work().ensures((), ()),
    {
        (self.work)();
    }
}

} // verus!
