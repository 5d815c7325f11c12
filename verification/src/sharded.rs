//! Data sharded across NUMA nodes: one shard per node, picked by the node
//! of the CPU a caller runs on.
use vstd::prelude::*;

use std::sync::Arc;

use crate::text::{dec, push_decimal};
use crate::topo::{cpu_map, NodeInfo, NumaNode, Topology};
use crate::types::NodeId;

verus! {

/// The node IDs of the nodes, in order.
pub open spec fn node_ids(nodes: Seq<NodeInfo>) -> Seq<NodeId> {
    nodes.map_values(|n: NodeInfo| n.id)
}

/// The position of the first `n` in `ids`, or -1 when `n` is not there.
pub open spec fn id_position(ids: Seq<NodeId>, n: NodeId) -> int
    decreases ids.len(),
{
    if ids.len() == 0 {
        -1
    } else if ids[0] == n {
        0
    } else {
        let r = id_position(ids.drop_first(), n);
        if r < 0 {
            -1
        } else {
            r + 1
        }
    }
}

/// `id_position` is the position of the first occurrence, or -1 when there
/// is none.
pub proof fn lemma_id_position(ids: Seq<NodeId>, n: NodeId)
    ensures
        -1 <= id_position(ids, n) < ids.len(),
        id_position(ids, n) >= 0 ==> ids[id_position(ids, n)] == n,
        forall|j: int| 0 <= j < ids.len() && j < id_position(ids, n) ==> (#[trigger] ids[j]) != n,
        id_position(ids, n) < 0 <==> !ids.contains(n),
    decreases ids.len(),
{
    if ids.len() > 0 {
        let rest = ids.drop_first();
        lemma_id_position(rest, n);
        assert forall|j: int| 0 <= j < ids.len() && j < id_position(ids, n) implies (#[trigger] ids[j]) != n by {
            if j > 0 {
                assert(ids[j] == rest[j - 1]);
            }
        }
        if id_position(ids, n) < 0 {
            assert forall|j: int| 0 <= j < ids.len() implies ids[j] != n by {
                if j > 0 {
                    assert(ids[j] == rest[j - 1]);
                }
            }
        } else {
            assert(ids[id_position(ids, n)] == n);
        }
    }
}

/// In a list without repetitions, the position of the ID at `i` is `i`.
pub proof fn lemma_id_position_distinct(ids: Seq<NodeId>, i: int)
    requires
        ids.no_duplicates(),
        0 <= i < ids.len(),
    ensures
        id_position(ids, ids[i]) == i,
{
    lemma_id_position(ids, ids[i]);
    assert(ids.contains(ids[i]));
    let k = id_position(ids, ids[i]);
    assert(ids[k] == ids[i]);
}

/// The node a caller on CPU `cpu` (as the OS reports it; negative when
/// unknown) runs on: the node that holds the CPU, or node 0 when the CPU
/// is unknown or belongs to no node.
pub open spec fn cpu_node(topo: Topology, cpu: i32) -> NodeId {
    if cpu < 0 {
        NodeId(0)
    } else {
        let m = cpu_map(topo@.nodes);
        if m.contains_key(cpu as u32) {
            m[cpu as u32]
        } else {
            NodeId(0)
        }
    }
}

/// The shard that serves a caller on CPU `cpu`, for shards of the nodes
/// `ids`: the shard of the caller's node, or shard 0 when that node has none.
pub open spec fn local_index(topo: Topology, ids: Seq<NodeId>, cpu: i32) -> nat {
    let k = id_position(ids, cpu_node(topo, cpu));
    if k >= 0 {
        k as nat
    } else {
        0
    }
}

/// The local shard is a shard, when there is one.
pub proof fn lemma_local_index_bound(topo: Topology, ids: Seq<NodeId>, cpu: i32)
    requires
        ids.len() > 0,
    ensures
        local_index(topo, ids, cpu) < ids.len(),
{
    lemma_id_position(ids, cpu_node(topo, cpu));
}

/// A data structure with one shard per NUMA node, each kept with its node's
/// ID and found by that ID.
pub struct NumaSharded<T> {
    entries: Vec<(NodeId, T)>,
    topo: Arc<Topology>,
}

impl<T> View for NumaSharded<T> {
    type V = Seq<T>;

    /// The shards, in node order.
    closed spec fn view(&self) -> Seq<T> {
        self.entries@.map_values(|e: (NodeId, T)| e.1)
    }
}

impl<T> NumaSharded<T> {
    /// The topology the shards follow.
    pub closed spec fn topo(&self) -> Topology {
        *self.topo
    }

    /// The node ID of each shard, in order.
    pub closed spec fn ids(&self) -> Seq<NodeId> {
        self.entries@.map_values(|e: (NodeId, T)| e.0)
    }

    /// Create a new sharded structure with one shard per NUMA node, in node
    /// order; the `factory` is called once per node.
    pub fn new<F: Fn() -> T>(topo: &Arc<Topology>, factory: F) -> (r: Self)
        requires
            factory.requires(()),
        ensures
            r.ids() == node_ids(topo@.nodes),
            r@.len() == topo@.nodes.len(),
            forall|i: int| 0 <= i < r@.len() ==> factory.ensures((), #[trigger] r@[i]),
            r.topo() == **topo,
    {
        let nodes = topo.numa_nodes();
        let ghost views = topo@.nodes;
        let mut entries: Vec<(NodeId, T)> = Vec::new();
        let mut i: usize = 0;
        while i < nodes.len()
            invariant
                i <= nodes@.len(),
                views == nodes@.map_values(|n: NumaNode| n@),
                views == topo@.nodes,
                entries@.len() == i,
                factory.requires(()),
                forall|k: int| 0 <= k < i ==> (#[trigger] entries@[k]).0 == views[k].id && factory.ensures((), entries@[k].1),
            decreases nodes@.len() - i,
        {
            assert(views[i as int] == nodes@[i as int]@);
            let v = factory();
            entries.push((nodes[i].id(), v));
            i = i + 1;
        }
        let r = NumaSharded { entries, topo: Arc::clone(topo) };
        assert(r.ids() =~= node_ids(topo@.nodes));
        r
    }

    /// The position of the shard of node `n`.
    fn position(&self, n: NodeId) -> (r: Option<usize>)
        ensures
            match r {
                Some(i) => i as int == id_position(self.ids(), n) && i < self@.len(),
                None => id_position(self.ids(), n) < 0,
            },
    {
        let ghost ids = self.ids();
        let mut i: usize = 0;
        assert(ids.skip(0) =~= ids);
        while i < self.entries.len()
            invariant
                i <= ids.len(),
                ids == self.ids(),
                ids.len() == self.entries@.len(),
                id_position(ids, n) == if id_position(ids.skip(i as int), n) < 0 {
                    -1
                } else {
                    id_position(ids.skip(i as int), n) + i
                },
            decreases self.entries@.len() - i,
        {
            assert(ids.skip(i as int)[0] == ids[i as int]);
            assert(ids.skip(i as int).drop_first() =~= ids.skip(i + 1));
            if self.entries[i].0 == n {
                return Some(i);
            }
            i = i + 1;
        }
        assert(ids.skip(ids.len() as int) =~= Seq::<NodeId>::empty());
        None
    }

    /// The node a caller on CPU `cpu` runs on.
    fn cpu_node(&self, cpu: i32) -> (r: NodeId)
        ensures
            r == cpu_node(self.topo(), cpu),
    {
        if cpu < 0 {
            return NodeId(0);
        }
        match self.topo.node_for_cpu(cpu as u32) {
            Some(node) => node,
            None => NodeId(0),
        }
    }

    /// The index of the shard that serves a caller on CPU `cpu`.
    pub fn local_index(&self, cpu: i32) -> (r: usize)
        ensures
            r == local_index(self.topo(), self.ids(), cpu),
    {
        let node = self.cpu_node(cpu);
        match self.position(node) {
            Some(i) => i,
            None => 0,
        }
    }

    /// Apply `f` to the shard of the node of CPU `cpu` (the CPU the OS
    /// reports for the calling thread; negative when unknown), or to the
    /// first shard when that node has none.
    pub fn local<R, F: FnOnce(&T) -> R>(&self, cpu: i32, f: F) -> (r: R)
        requires
            self@.len() > 0,
            forall|t: &T| f.requires((t,)),
        ensures
            f.ensures((&self@[local_index(self.topo(), self.ids(), cpu) as int],), r),
    {
        let idx = self.local_index(cpu);
        proof {
            lemma_id_position(self.ids(), cpu_node(self.topo(), cpu));
        }
        f(&self.entries[idx].1)
    }

    /// The shard of node `node`, if the node has one.
    pub fn get(&self, node: NodeId) -> (r: Option<&T>)
        ensures
            r is Some <==> self.ids().contains(node),
            match r {
                Some(t) => *t == self@[id_position(self.ids(), node)],
                None => true,
            },
    {
        proof {
            lemma_id_position(self.ids(), node);
        }
        match self.position(node) {
            Some(i) => Some(&self.entries[i].1),
            None => None,
        }
    }

    /// A mutable reference to the shard of node `node`, if it has one.
    pub fn get_mut(&mut self, node: NodeId) -> (r: Option<&mut T>)
        ensures
            r is Some <==> old(self).ids().contains(node),
            match r {
                Some(t) => *t == old(self)@[id_position(old(self).ids(), node)] && final(self)@ == old(
                    self,
                )@.update(id_position(old(self).ids(), node), *final(t)),
                None => final(self)@ == old(self)@,
            },
            final(self).ids() == old(self).ids(),
            final(self).topo() == old(self).topo(),
    {
        proof {
            lemma_id_position(self.ids(), node);
        }
        match self.position(node) {
            Some(i) => {
                let e = &mut self.entries[i];
                Some(&mut e.1)
            },
            None => {
                assert(self@ =~= old(self)@);
                None
            },
        }
    }

    /// Mutable references to all shards with their node IDs, in node order.
    pub fn iter_mut(&mut self) -> (r: Vec<(NodeId, &mut T)>)
        ensures
            r@.len() == old(self)@.len(),
            forall|i: int|
                0 <= i < r@.len() ==> (#[trigger] r@[i]).0 == old(self).ids()[i] && *r@[i].1 == old(self)@[i],
            final(self).topo() == old(self).topo(),
            final(self).ids() == old(self).ids(),
            final(self)@.len() == old(self)@.len(),
            forall|i: int| 0 <= i < r@.len() ==> final(self)@[i] == *final((#[trigger] r@[i]).1),
    {
        let ghost orig = self.entries@;
        let ghost fself = *final(self);
        let n = self.entries.len();
        let mut rest: &mut [(NodeId, T)] = self.entries.as_mut_slice();
        let mut out: Vec<(NodeId, &mut T)> = Vec::new();
        let mut i: usize = 0;
        while rest.len() > 0
            invariant
                i + rest@.len() == orig.len(),
                orig.len() == n,
                rest@ == orig.subrange(i as int, orig.len() as int),
                out@.len() == i,
                forall|k: int| 0 <= k < i ==> (#[trigger] out@[k]).0 == orig[k].0 && *out@[k].1 == orig[k].1,
                fself.entries@ == Seq::new(i as nat, |k: int| (orig[k].0, *final(out@[k].1))) + final(rest)@,
            decreases rest@.len(),
        {
            let (head, tail) = rest.split_at_mut(1);
            let x = head.first_mut().unwrap();
            let id = x.0;
            out.push((id, &mut x.1));
            rest = tail;
            i = i + 1;
        }
        out
    }

    /// Replace the shard of node `node`, if the node has one.
    pub fn set(&mut self, node: NodeId, value: T) -> (r: bool)
        ensures
            r == old(self).ids().contains(node),
            r ==> final(self)@ == old(self)@.update(id_position(old(self).ids(), node), value),
            !r ==> final(self)@ == old(self)@,
            final(self).ids() == old(self).ids(),
            final(self).topo() == old(self).topo(),
    {
        proof {
            lemma_id_position(self.ids(), node);
        }
        match self.position(node) {
            Some(i) => {
                self.put(i, value);
                true
            },
            None => false,
        }
    }

    /// The shard at position `idx`.
    pub fn at(&self, idx: usize) -> (r: &T)
        requires
            idx < self@.len(),
        ensures
            *r == self@[idx as int],
    {
        &self.entries[idx].1
    }

    /// Replace the shard at position `idx`.
    pub fn put(&mut self, idx: usize, value: T)
        requires
            idx < old(self)@.len(),
        ensures
            final(self)@ == old(self)@.update(idx as int, value),
            final(self).ids() == old(self).ids(),
            final(self).topo() == old(self).topo(),
    {
        let id = self.entries[idx].0;
        self.entries.set(idx, (id, value));
        assert(self@ =~= old(self)@.update(idx as int, value));
        assert(self.ids() =~= old(self).ids());
    }

    /// All shards with their node IDs, in node order.
    pub fn iter(&self) -> (r: Vec<(NodeId, &T)>)
        ensures
            r@.len() == self@.len(),
            forall|i: int| 0 <= i < r@.len() ==> (#[trigger] r@[i]).0 == self.ids()[i] && *r@[i].1 == self@[i],
    {
        let mut out: Vec<(NodeId, &T)> = Vec::new();
        let mut i: usize = 0;
        while i < self.entries.len()
            invariant
                i <= self.entries@.len(),
                out@.len() == i,
                forall|k: int|
                    0 <= k < i ==> (#[trigger] out@[k]).0 == self.entries@[k].0 && *out@[k].1 == self.entries@[k].1,
            decreases self.entries@.len() - i,
        {
            let e = &self.entries[i];
            out.push((e.0, &e.1));
            i = i + 1;
        }
        out
    }

    /// Get the number of shards (equals the number of NUMA nodes).
    pub fn len(&self) -> (r: usize)
        ensures
            r == self@.len(),
    {
        self.entries.len()
    }

    /// Check if there are no shards.
    pub fn is_empty(&self) -> (r: bool)
        ensures
            r == (self@.len() == 0),
    {
        self.entries.len() == 0
    }

    /// Get the topology used by this sharded structure.
    pub fn topology(&self) -> (r: &Arc<Topology>)
        ensures
            **r == self.topo(),
    {
        &self.topo
    }
}

/// The sum of the values, as a mathematical integer.
pub open spec fn total(s: Seq<u64>) -> nat
    decreases s.len(),
{
    if s.len() == 0 {
        0
    } else {
        total(s.drop_last()) + s.last() as nat
    }
}

/// The sum of the values as a `u64` adds up, wrapping around.
pub open spec fn wrapped_total(s: Seq<u64>) -> nat {
    total(s) % 0x1_0000_0000_0000_0000
}

/// A counter with one shard per NUMA node; the count is the sum of the
/// shards. Each shard, and the sum, wraps around on overflow and underflow.
pub struct ShardedCounter {
    shards: NumaSharded<u64>,
}

impl View for ShardedCounter {
    type V = Seq<u64>;

    closed spec fn view(&self) -> Seq<u64> {
        self.shards@
    }
}

impl ShardedCounter {
    /// The topology the shards follow.
    pub closed spec fn topo(&self) -> Topology {
        self.shards.topo()
    }

    /// The node ID of each shard, in order.
    pub closed spec fn ids(&self) -> Seq<NodeId> {
        self.shards.ids()
    }

    /// Create a new sharded counter with one shard per node, every shard at zero.
    pub fn new(topo: &Arc<Topology>) -> (r: Self)
        ensures
            r@ == Seq::new(topo@.nodes.len(), |i: int| 0u64),
            r.ids() == node_ids(topo@.nodes),
            r.topo() == **topo,
    {
        let shards = NumaSharded::new(topo, || -> (z: u64) ensures z == 0 { 0u64 });
        let r = ShardedCounter { shards };
        assert(r@ =~= Seq::new(topo@.nodes.len(), |i: int| 0u64));
        r
    }

    /// Increment by 1 the shard of the node of CPU `cpu`.
    pub fn increment(&mut self, cpu: i32)
        requires
            old(self)@.len() > 0,
        ensures
            ({
                let i = local_index(old(self).topo(), old(self).ids(), cpu) as int;
                final(self)@ == old(self)@.update(i, vstd::wrapping::u64_specs::wrapping_add(old(self)@[i], 1))
            }),
            final(self).ids() == old(self).ids(),
            final(self).topo() == old(self).topo(),
    {
        self.add(cpu, 1);
    }

    /// Add `n` to the shard of the node of CPU `cpu`.
    pub fn add(&mut self, cpu: i32, n: u64)
        requires
            old(self)@.len() > 0,
        ensures
            ({
                let i = local_index(old(self).topo(), old(self).ids(), cpu) as int;
                final(self)@ == old(self)@.update(i, vstd::wrapping::u64_specs::wrapping_add(old(self)@[i], n))
            }),
            final(self).ids() == old(self).ids(),
            final(self).topo() == old(self).topo(),
    {
        let idx = self.shards.local_index(cpu);
        proof {
            lemma_id_position(self.ids(), cpu_node(self.topo(), cpu));
        }
        let cur = *self.shards.at(idx);
        self.shards.put(idx, cur.wrapping_add(n));
    }

    /// Subtract `n` from the shard of the node of CPU `cpu`.
    pub fn sub(&mut self, cpu: i32, n: u64)
        requires
            old(self)@.len() > 0,
        ensures
            ({
                let i = local_index(old(self).topo(), old(self).ids(), cpu) as int;
                final(self)@ == old(self)@.update(i, vstd::wrapping::u64_specs::wrapping_sub(old(self)@[i], n))
            }),
            final(self).ids() == old(self).ids(),
            final(self).topo() == old(self).topo(),
    {
        let idx = self.shards.local_index(cpu);
        proof {
            lemma_id_position(self.ids(), cpu_node(self.topo(), cpu));
        }
        let cur = *self.shards.at(idx);
        self.shards.put(idx, cur.wrapping_sub(n));
    }

    /// The sum of all shards, wrapping around past `u64::MAX`.
    pub fn sum(&self) -> (r: u64)
        ensures
            r == wrapped_total(self@),
    {
        let items = self.shards.iter();
        let mut acc: u64 = 0;
        let mut i: usize = 0;
        while i < items.len()
            invariant
                items@.len() == self@.len(),
                forall|k: int| 0 <= k < items@.len() ==> *(#[trigger] items@[k]).1 == self@[k],
                i <= items@.len(),
                acc == wrapped_total(self@.take(i as int)),
            decreases items@.len() - i,
        {
            proof {
                assert(self@.take(i + 1).drop_last() =~= self@.take(i as int));
                lemma_wrapped_step(self@.take(i + 1));
            }
            acc = acc.wrapping_add(*items[i].1);
            i = i + 1;
        }
        assert(self@.take(self@.len() as int) =~= self@);
        acc
    }

    /// Get the count of node `node`, if it has a shard.
    pub fn node_count(&self, node: NodeId) -> (r: Option<u64>)
        ensures
            r is Some <==> self.ids().contains(node),
            match r {
                Some(c) => c == self@[id_position(self.ids(), node)],
                None => true,
            },
    {
        match self.shards.get(node) {
            Some(c) => Some(*c),
            None => None,
        }
    }

    /// The count of the shard at position `idx`.
    pub fn value_at(&self, idx: usize) -> (r: u64)
        requires
            idx < self@.len(),
        ensures
            r == self@[idx as int],
    {
        *self.shards.at(idx)
    }

    /// Reset all shards to zero.
    pub fn reset(&mut self)
        ensures
            final(self)@ == Seq::new(old(self)@.len(), |i: int| 0u64),
            final(self).ids() == old(self).ids(),
            final(self).topo() == old(self).topo(),
    {
        let n = self.shards.len();
        let mut i: usize = 0;
        while i < n
            invariant
                n == old(self)@.len() == self@.len(),
                i <= n,
                self.topo() == old(self).topo(),
                self.ids() == old(self).ids(),
                forall|k: int| 0 <= k < i ==> self@[k] == 0,
            decreases n - i,
        {
            self.shards.put(i, 0);
            i = i + 1;
        }
        assert(self@ =~= Seq::new(old(self)@.len(), |i: int| 0u64));
    }

    /// Get the number of shards (equals node count).
    pub fn num_shards(&self) -> (r: usize)
        ensures
            r == self@.len(),
    {
        self.shards.len()
    }

    /// The count of each node with the node's ID, in node order.
    pub fn iter(&self) -> (r: Vec<(NodeId, u64)>)
        ensures
            r@.len() == self@.len(),
            forall|i: int| 0 <= i < r@.len() ==> (#[trigger] r@[i]).0 == self.ids()[i] && r@[i].1 == self@[i],
    {
        let items = self.shards.iter();
        let mut out: Vec<(NodeId, u64)> = Vec::new();
        let mut i: usize = 0;
        while i < items.len()
            invariant
                items@.len() == self@.len(),
                forall|k: int|
                    0 <= k < items@.len() ==> (#[trigger] items@[k]).0 == self.ids()[k] && *items@[k].1 == self@[k],
                i <= items@.len(),
                out@.len() == i,
                forall|k: int| 0 <= k < i ==> (#[trigger] out@[k]).0 == self.ids()[k] && out@[k].1 == self@[k],
            decreases items@.len() - i,
        {
            let (id, c) = items[i];
            out.push((id, *c));
            i = i + 1;
        }
        out
    }

    /// The display text: the sum in decimal.
    pub fn to_string(&self) -> (r: String)
        ensures
            r@ == dec(wrapped_total(self@)),
    {
        let mut s = String::new();
        push_decimal(&mut s, self.sum());
        assert(s@ =~= dec(wrapped_total(self@)));
        s
    }
}

/// Adding one more value to a wrapped sum wraps the sum of all.
pub proof fn lemma_wrapped_step(s: Seq<u64>)
    requires
        s.len() > 0,
    ensures
        wrapped_total(s) == vstd::wrapping::u64_specs::wrapping_add(
            wrapped_total(s.drop_last()) as u64,
            s.last(),
        ),
{
    let a: int = total(s.drop_last()) as int;
    let m: int = 0x1_0000_0000_0000_0000;
    let x = s.last() as int;
    assert(total(s) == a + x);
    let w = a % m;
    vstd::arithmetic::div_mod::lemma_fundamental_div_mod(a as int, m);
    vstd::arithmetic::div_mod::lemma_mod_bound(a as int, m);
    let q = a / m;
    assert(a == q * m + w);
    assert((a + x) % m == (w + x) % m) by {
        vstd::arithmetic::div_mod::lemma_mod_multiples_vanish(q, w + x, m);
        assert(m * q + (w + x) == a + x) by (nonlinear_arith)
            requires
                a == q * m + w,
        ;
    }
    if w + x < m {
        vstd::arithmetic::div_mod::lemma_small_mod((w + x) as nat, m as nat);
    } else {
        vstd::arithmetic::div_mod::lemma_small_mod((w + x - m) as nat, m as nat);
        vstd::arithmetic::div_mod::lemma_mod_sub_multiples_vanish(w + x, m);
    }
}

/// The total of a prefix is at most the total.
pub proof fn lemma_total_prefix(s: Seq<u64>, i: int)
    requires
        0 <= i <= s.len(),
    ensures
        total(s.take(i)) <= total(s),
    decreases s.len() - i,
{
    if i < s.len() {
        lemma_total_prefix(s, i + 1);
        assert(s.take(i + 1).drop_last() =~= s.take(i));
    } else {
        assert(s.take(i) =~= s);
    }
}

} // verus!
