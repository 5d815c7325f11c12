use vstd::prelude::*;

use crate::bits::{
    below, bit_set, lemma_below_step, lemma_bit_clear, lemma_bit_inter, lemma_bit_or, lemma_bit_test,
    lemma_bit_union, lemma_bounded_set_finite, lemma_push_contains, lemma_zero_word,
};

verus! {

/// Identifier for a NUMA node.
///
/// Node IDs are stable identifiers assigned by the kernel. They typically
/// start at 0 and increment, but gaps may exist on some systems.
#[derive(Debug, Clone, Copy, PartialEq, Eq, Structural, PartialOrd, Ord, Hash)]
pub struct NodeId(pub u32);

impl NodeId {
    /// Create a new NodeId from a raw value.
    pub fn new(id: u32) -> (r: Self)
        ensures
            r.0 == id,
    {
        NodeId(id)
    }

    /// Get the raw node ID value.
    pub fn as_u32(self) -> (r: u32)
        ensures
            r == self.0,
    {
        self.0
    }
}

impl From<u32> for NodeId {
    fn from(id: u32) -> (r: Self) {
        NodeId(id)
    }
}

impl vstd::std_specs::convert::FromSpecImpl<u32> for NodeId {
    open spec fn obeys_from_spec() -> bool {
        true
    }

    open spec fn from_spec(id: u32) -> NodeId {
        NodeId(id)
    }
}

impl From<NodeId> for u32 {
    fn from(id: NodeId) -> (r: Self) {
        id.0
    }
}

impl vstd::std_specs::convert::FromSpecImpl<NodeId> for u32 {
    open spec fn obeys_from_spec() -> bool {
        true
    }

    open spec fn from_spec(id: NodeId) -> u32 {
        id.0
    }
}

/// Number of 64-bit words in a CPU bitmap.
pub const CPU_WORDS: usize = 16;

/// Maximum number of CPUs a `CpuSet` can hold.
pub const MAX_CPUS: u32 = 1024;

/// Maximum number of nodes a `NodeMask` can hold.
pub const MAX_NODES: u32 = 64;

/// The elements of `s` below `n`, in ascending order.
pub open spec fn ascending(s: Set<u32>, n: nat) -> Seq<u32>
    decreases n,
{
    if n == 0 {
        Seq::empty()
    } else if s.contains((n - 1) as u32) {
        ascending(s, (n - 1) as nat).push((n - 1) as u32)
    } else {
        ascending(s, (n - 1) as nat)
    }
}

/// `ascending(s, n)` lists, without repetition and in increasing order,
/// exactly the elements of `s` below `n`.
pub proof fn lemma_ascending(s: Set<u32>, n: nat)
    requires
        n < 0x1_0000_0000,
    ensures
        ascending(s, n).len() == below(s, n as int).len(),
        below(s, n as int).finite(),
        forall|c: u32| #[trigger] ascending(s, n).contains(c) <==> ((c as int) < n && s.contains(c)),
        forall|i: int, j: int| 0 <= i < j < ascending(s, n).len() ==> ascending(s, n)[i] < ascending(s, n)[j],
        forall|i: int| 0 <= i < ascending(s, n).len() ==> (#[trigger] ascending(s, n)[i] as int) < n,
    decreases n,
{
    if n == 0 {
        assert(below(s, 0) =~= Set::<u32>::empty());
    } else {
        let m = (n - 1) as nat;
        lemma_ascending(s, m);
        lemma_below_step(s, m as int);
        let prev = ascending(s, m);
        if s.contains(m as u32) {
            lemma_push_contains(prev, m as u32);
            assert(!below(s, m as int).contains(m as u32));
        }
    }
}

/// Whether `cpu` is marked in the 1024-bit map `bits`.
pub open spec fn cpu_bit(bits: [u64; 16], cpu: u32) -> bool {
    (cpu as int) < 1024 && bit_set(bits[(cpu / 64) as int], (cpu % 64) as u64)
}

/// A set of CPU IDs (up to 1024 CPUs, matching the Linux kernel limit).
#[derive(Debug, Clone, Copy)]
pub struct CpuSet {
    bits: [u64; 16],
}

impl View for CpuSet {
    type V = Set<u32>;

    /// The CPUs in the set.
    closed spec fn view(&self) -> Set<u32> {
        Set::new(|c: u32| cpu_bit(self.bits, c))
    }
}

impl CpuSet {
    /// The raw bitmap of the set.
    pub closed spec fn raw(&self) -> [u64; 16] {
        self.bits
    }

    /// The set holds exactly the CPUs whose bit is set in the raw bitmap.
    pub proof fn lemma_view_raw(&self)
        ensures
            forall|c: u32| #[trigger] self@.contains(c) <==> cpu_bit(self.raw(), c),
    {
    }

    pub proof fn lemma_view_bounded(&self)
        ensures
            forall|c: u32| #[trigger] self@.contains(c) ==> c < 1024,
            self@.finite(),
            self@.len() <= 1024,
    {
        lemma_bounded_set_finite(self@, 1024);
    }

    /// Create an empty CPU set.
    pub fn new() -> (r: Self)
        ensures
            r@ == Set::<u32>::empty(),
    {
        let r = CpuSet { bits: [0u64; 16] };
        assert(r@ =~= Set::<u32>::empty()) by {
            assert forall|c: u32| !r@.contains(c) by {
                if c < 1024 {
                    lemma_zero_word((c % 64) as u64);
                }
            }
        }
        r
    }

    /// Create a CPU set containing a single CPU.
    pub fn single(cpu: u32) -> (r: Self)
        requires
            cpu < MAX_CPUS,
        ensures
            r@ == set![cpu],
    {
        let mut set = Self::new();
        set.add(cpu);
        assert(set@ =~= set![cpu]);
        set
    }

    /// Add a CPU to the set.
    pub fn add(&mut self, cpu: u32)
        requires
            cpu < MAX_CPUS,
        ensures
            final(self)@ == old(self)@.insert(cpu),
    {
        let idx: usize = (cpu / 64) as usize;
        let bit: u64 = (cpu % 64) as u64;
        let word = self.bits[idx] | (1u64 << bit);
        self.bits[idx] = word;
        proof {
            let o = old(self).bits;
            let n = self.bits;
            assert forall|c: u32| #[trigger] cpu_bit(n, c) == (c == cpu || cpu_bit(o, c)) by {
                if c < 1024 {
                    if c / 64 == cpu / 64 {
                        lemma_bit_or(o[idx as int], bit, (c % 64) as u64);
                    }
                }
            }
            assert(self@ =~= old(self)@.insert(cpu));
        }
    }

    /// Remove a CPU from the set. CPUs outside the supported range are ignored.
    pub fn remove(&mut self, cpu: u32)
        ensures
            final(self)@ == old(self)@.remove(cpu),
    {
        if cpu < MAX_CPUS {
            let idx: usize = (cpu / 64) as usize;
            let bit: u64 = (cpu % 64) as u64;
            let word = self.bits[idx] & !(1u64 << bit);
            self.bits[idx] = word;
            proof {
                let o = old(self).bits;
                let n = self.bits;
                assert forall|c: u32| #[trigger] cpu_bit(n, c) == (c != cpu && cpu_bit(o, c)) by {
                    if c < 1024 {
                        if c / 64 == cpu / 64 {
                            lemma_bit_clear(o[idx as int], bit, (c % 64) as u64);
                        }
                    }
                }
            }
        }
        assert(final(self)@ =~= old(self)@.remove(cpu));
    }

    /// Check if a CPU is in the set.
    pub fn contains(&self, cpu: u32) -> (r: bool)
        ensures
            r == self@.contains(cpu),
    {
        if cpu >= MAX_CPUS {
            return false;
        }
        let idx: usize = (cpu / 64) as usize;
        let bit: u64 = (cpu % 64) as u64;
        proof {
            lemma_bit_test(self.bits[idx as int], bit);
        }
        (self.bits[idx] & (1u64 << bit)) != 0
    }

    /// Check if the set is empty.
    pub fn is_empty(&self) -> (r: bool)
        ensures
            r == (self@ == Set::<u32>::empty()),
    {
        let mut cpu: u32 = 0;
        while cpu < MAX_CPUS
            invariant
                cpu <= MAX_CPUS,
                forall|c: u32| c < cpu ==> !#[trigger] self@.contains(c),
            decreases MAX_CPUS - cpu,
        {
            if self.contains(cpu) {
                assert(self@.contains(cpu));
                return false;
            }
            cpu = cpu + 1;
        }
        assert(self@ =~= Set::<u32>::empty());
        true
    }

    /// Count the number of CPUs in the set.
    pub fn count(&self) -> (r: usize)
        ensures
            r == self@.len(),
    {
        let mut n: usize = 0;
        let mut cpu: u32 = 0;
        proof {
            assert(below(self@, 0) =~= Set::<u32>::empty());
        }
        while cpu < MAX_CPUS
            invariant
                cpu <= MAX_CPUS,
                n <= cpu,
                below(self@, cpu as int).finite(),
                n == below(self@, cpu as int).len(),
            decreases MAX_CPUS - cpu,
        {
            proof {
                lemma_below_step(self@, cpu as int);
            }
            if self.contains(cpu) {
                n = n + 1;
            }
            cpu = cpu + 1;
        }
        proof {
            assert(below(self@, 1024) =~= self@);
        }
        n
    }

    /// The CPUs of the set in ascending order.
    pub fn iter(&self) -> (r: Vec<u32>)
        ensures
            r@ == ascending(self@, 1024),
    {
        let mut out: Vec<u32> = Vec::new();
        let mut cpu: u32 = 0;
        while cpu < MAX_CPUS
            invariant
                cpu <= MAX_CPUS,
                out@ == ascending(self@, cpu as nat),
            decreases MAX_CPUS - cpu,
        {
            if self.contains(cpu) {
                out.push(cpu);
            }
            cpu = cpu + 1;
        }
        out
    }

    /// Get the smallest CPU in the set, if any.
    pub fn first(&self) -> (r: Option<u32>)
        ensures
            r is None <==> self@ == Set::<u32>::empty(),
            r matches Some(c) ==> self@.contains(c) && forall|d: u32| #[trigger] self@.contains(d) ==> c <= d,
    {
        let mut cpu: u32 = 0;
        while cpu < MAX_CPUS
            invariant
                cpu <= MAX_CPUS,
                forall|c: u32| c < cpu ==> !#[trigger] self@.contains(c),
            decreases MAX_CPUS - cpu,
        {
            if self.contains(cpu) {
                return Some(cpu);
            }
            cpu = cpu + 1;
        }
        assert(self@ =~= Set::<u32>::empty());
        None
    }

    /// Create a union of two CPU sets.
    pub fn union(&self, other: &Self) -> (r: Self)
        ensures
            r@ == self@.union(other@),
    {
        let mut bits = [0u64; 16];
        let mut i: usize = 0;
        while i < CPU_WORDS
            invariant
                i <= CPU_WORDS,
                forall|j: int| 0 <= j < i ==> bits[j] == self.bits[j] | other.bits[j],
            decreases CPU_WORDS - i,
        {
            bits[i] = self.bits[i] | other.bits[i];
            i = i + 1;
        }
        let r = CpuSet { bits };
        proof {
            assert forall|c: u32| #[trigger] cpu_bit(r.bits, c) == (cpu_bit(self.bits, c) || cpu_bit(other.bits, c)) by {
                if c < 1024 {
                    let w = (c / 64) as int;
                    lemma_bit_union(self.bits[w], other.bits[w], (c % 64) as u64);
                }
            }
            assert(r@ =~= self@.union(other@));
        }
        r
    }

    /// Create an intersection of two CPU sets.
    pub fn intersection(&self, other: &Self) -> (r: Self)
        ensures
            r@ == self@.intersect(other@),
    {
        let mut bits = [0u64; 16];
        let mut i: usize = 0;
        while i < CPU_WORDS
            invariant
                i <= CPU_WORDS,
                forall|j: int| 0 <= j < i ==> bits[j] == self.bits[j] & other.bits[j],
            decreases CPU_WORDS - i,
        {
            bits[i] = self.bits[i] & other.bits[i];
            i = i + 1;
        }
        let r = CpuSet { bits };
        proof {
            assert forall|c: u32| #[trigger] cpu_bit(r.bits, c) == (cpu_bit(self.bits, c) && cpu_bit(other.bits, c)) by {
                if c < 1024 {
                    let w = (c / 64) as int;
                    lemma_bit_inter(self.bits[w], other.bits[w], (c % 64) as u64);
                }
            }
            assert(r@ =~= self@.intersect(other@));
        }
        r
    }

    /// Get the raw bitmap: bit `c % 64` of word `c / 64` marks CPU `c`.
    pub fn as_raw(&self) -> (r: &[u64; 16])
        ensures
            *r == self.raw(),
    {
        &self.bits
    }

    /// A mutable reference to the raw bitmap; the set afterwards is the one
    /// the bitmap then describes.
    pub fn as_raw_mut(&mut self) -> (r: &mut [u64; 16])
        ensures
            *r == old(self).raw(),
            final(self).raw() == *final(r),
    {
        &mut self.bits
    }

    /// Create a CPU set from a raw bitmap.
    pub fn from_raw(bits: [u64; 16]) -> (r: Self)
        ensures
            r.raw() == bits,
    {
        CpuSet { bits }
    }

    /// Create a CPU set holding every CPU in `cpus`.
    pub fn from_cpus(cpus: &[u32]) -> (r: Self)
        requires
            forall|i: int| 0 <= i < cpus@.len() ==> #[trigger] cpus@[i] < MAX_CPUS,
        ensures
            r@ == cpus@.to_set(),
    {
        let mut set = Self::new();
        let mut i: usize = 0;
        while i < cpus.len()
            invariant
                i <= cpus@.len(),
                forall|k: int| 0 <= k < cpus@.len() ==> #[trigger] cpus@[k] < MAX_CPUS,
                set@ == cpus@.take(i as int).to_set(),
            decreases cpus.len() - i,
        {
            set.add(cpus[i]);
            proof {
                assert(cpus@.take(i + 1) =~= cpus@.take(i as int).push(cpus@[i as int]));
                lemma_push_contains(cpus@.take(i as int), cpus@[i as int]);
            }
            i = i + 1;
        }
        assert(cpus@.take(cpus@.len() as int) =~= cpus@);
        set
    }
}

impl PartialEq for CpuSet {
    fn eq(&self, other: &Self) -> (r: bool) {
        let mut cpu: u32 = 0;
        while cpu < MAX_CPUS
            invariant
                cpu <= MAX_CPUS,
                forall|c: u32| c < cpu ==> (#[trigger] self@.contains(c) == other@.contains(c)),
            decreases MAX_CPUS - cpu,
        {
            if self.contains(cpu) != other.contains(cpu) {
                return false;
            }
            cpu = cpu + 1;
        }
        proof {
            self.lemma_view_bounded();
            other.lemma_view_bounded();
        }
        assert(self@ =~= other@);
        true
    }
}

impl vstd::std_specs::cmp::PartialEqSpecImpl for CpuSet {
    open spec fn obeys_eq_spec() -> bool {
        true
    }

    open spec fn eq_spec(&self, other: &Self) -> bool {
        self@ == other@
    }
}

impl Eq for CpuSet {
}

impl Default for CpuSet {
    fn default() -> (r: Self)
        ensures
            r@ == Set::<u32>::empty(),
    {
        Self::new()
    }
}

/// Whether node `n` is marked in the 64-bit map `bits`.
pub open spec fn node_bit(bits: u64, n: u32) -> bool {
    (n as int) < 64 && bit_set(bits, n as u64)
}

/// A set of NUMA node IDs (up to 64 nodes).
#[derive(Debug, Clone, Copy, PartialEq, Eq, Structural)]
pub struct NodeMask {
    bits: u64,
}

impl View for NodeMask {
    type V = Set<u32>;

    /// The raw ids of the nodes in the mask.
    closed spec fn view(&self) -> Set<u32> {
        Set::new(|n: u32| node_bit(self.bits, n))
    }
}

impl NodeMask {
    /// The raw bitmap of the mask.
    pub closed spec fn raw(&self) -> u64 {
        self.bits
    }

    /// The mask holds exactly the nodes whose bit is set in the raw bitmap.
    pub proof fn lemma_view_raw(&self)
        ensures
            forall|n: u32| #[trigger] self@.contains(n) <==> node_bit(self.raw(), n),
    {
    }

    pub proof fn lemma_view_bounded(&self)
        ensures
            forall|n: u32| #[trigger] self@.contains(n) ==> n < 64,
            self@.finite(),
            self@.len() <= 64,
    {
        lemma_bounded_set_finite(self@, 64);
    }

    /// Create an empty node mask.
    pub fn new() -> (r: Self)
        ensures
            r@ == Set::<u32>::empty(),
    {
        let r = NodeMask { bits: 0 };
        assert(r@ =~= Set::<u32>::empty()) by {
            assert forall|n: u32| !r@.contains(n) by {
                if n < 64 {
                    lemma_zero_word(n as u64);
                }
            }
        }
        r
    }

    /// Create a node mask containing a single node.
    pub fn single(node: NodeId) -> (r: Self)
        requires
            node.0 < MAX_NODES,
        ensures
            r@ == set![node.0],
    {
        let mut mask = Self::new();
        mask.add(node);
        assert(mask@ =~= set![node.0]);
        mask
    }

    /// Add a node to the mask.
    pub fn add(&mut self, node: NodeId)
        requires
            node.0 < MAX_NODES,
        ensures
            final(self)@ == old(self)@.insert(node.0),
    {
        let b: u64 = node.0 as u64;
        self.bits = self.bits | (1u64 << b);
        proof {
            let o = old(self).bits;
            assert forall|n: u32| #[trigger] node_bit(self.bits, n) == (n == node.0 || node_bit(o, n)) by {
                if n < 64 {
                    lemma_bit_or(o, b, n as u64);
                }
            }
            assert(self@ =~= old(self)@.insert(node.0));
        }
    }

    /// Remove a node from the mask. Nodes outside the supported range are ignored.
    pub fn remove(&mut self, node: NodeId)
        ensures
            final(self)@ == old(self)@.remove(node.0),
    {
        if node.0 < MAX_NODES {
            let b: u64 = node.0 as u64;
            self.bits = self.bits & !(1u64 << b);
            proof {
                let o = old(self).bits;
                assert forall|n: u32| #[trigger] node_bit(self.bits, n) == (n != node.0 && node_bit(o, n)) by {
                    if n < 64 {
                        lemma_bit_clear(o, b, n as u64);
                    }
                }
            }
        }
        assert(final(self)@ =~= old(self)@.remove(node.0));
    }

    /// Check if a node is in the mask.
    pub fn contains(&self, node: NodeId) -> (r: bool)
        ensures
            r == self@.contains(node.0),
    {
        if node.0 >= MAX_NODES {
            return false;
        }
        let b: u64 = node.0 as u64;
        proof {
            lemma_bit_test(self.bits, b);
        }
        (self.bits & (1u64 << b)) != 0
    }

    /// Check if the mask is empty.
    pub fn is_empty(&self) -> (r: bool)
        ensures
            r == (self@ == Set::<u32>::empty()),
    {
        let mut n: u32 = 0;
        while n < MAX_NODES
            invariant
                n <= MAX_NODES,
                forall|m: u32| m < n ==> !#[trigger] self@.contains(m),
            decreases MAX_NODES - n,
        {
            if self.contains(NodeId(n)) {
                assert(self@.contains(n));
                return false;
            }
            n = n + 1;
        }
        assert(self@ =~= Set::<u32>::empty());
        true
    }

    /// Count the number of nodes in the mask.
    pub fn count(&self) -> (r: usize)
        ensures
            r == self@.len(),
    {
        let mut k: usize = 0;
        let mut n: u32 = 0;
        proof {
            assert(below(self@, 0) =~= Set::<u32>::empty());
        }
        while n < MAX_NODES
            invariant
                n <= MAX_NODES,
                k <= n,
                below(self@, n as int).finite(),
                k == below(self@, n as int).len(),
            decreases MAX_NODES - n,
        {
            proof {
                lemma_below_step(self@, n as int);
            }
            if self.contains(NodeId(n)) {
                k = k + 1;
            }
            n = n + 1;
        }
        proof {
            assert(below(self@, 64) =~= self@);
        }
        k
    }

    /// The nodes of the mask in ascending order.
    pub fn iter(&self) -> (r: Vec<NodeId>)
        ensures
            r@ == ascending(self@, 64).map_values(|n: u32| NodeId(n)),
    {
        let mut out: Vec<NodeId> = Vec::new();
        let mut n: u32 = 0;
        while n < MAX_NODES
            invariant
                n <= MAX_NODES,
                out@ == ascending(self@, n as nat).map_values(|m: u32| NodeId(m)),
            decreases MAX_NODES - n,
        {
            if self.contains(NodeId(n)) {
                out.push(NodeId(n));
            }
            proof {
                let f = |m: u32| NodeId(m);
                if self@.contains(n) {
                    assert(ascending(self@, n as nat + 1).map_values(f) =~= ascending(self@, n as nat).map_values(f).push(NodeId(n)));
                }
            }
            n = n + 1;
        }
        out
    }

    /// Get the lowest node in the mask, if any.
    pub fn first(&self) -> (r: Option<NodeId>)
        ensures
            r is None <==> self@ == Set::<u32>::empty(),
            r matches Some(n) ==> self@.contains(n.0) && forall|m: u32| #[trigger] self@.contains(m) ==> n.0 <= m,
    {
        let mut n: u32 = 0;
        while n < MAX_NODES
            invariant
                n <= MAX_NODES,
                forall|m: u32| m < n ==> !#[trigger] self@.contains(m),
            decreases MAX_NODES - n,
        {
            if self.contains(NodeId(n)) {
                return Some(NodeId(n));
            }
            n = n + 1;
        }
        assert(self@ =~= Set::<u32>::empty());
        None
    }

    /// Get the raw bitmap: bit `n` marks node `n`.
    pub fn as_raw(&self) -> (r: u64)
        ensures
            r == self.raw(),
    {
        self.bits
    }

    /// Create from a raw bitmap.
    pub fn from_raw(bits: u64) -> (r: Self)
        ensures
            r.raw() == bits,
    {
        NodeMask { bits }
    }

    /// Create a mask holding every node in `nodes`.
    pub fn from_nodes(nodes: &[NodeId]) -> (r: Self)
        requires
            forall|i: int| 0 <= i < nodes@.len() ==> #[trigger] nodes@[i].0 < MAX_NODES,
        ensures
            forall|n: u32| r@.contains(n) <==> exists|i: int| 0 <= i < nodes@.len() && #[trigger] nodes@[i].0 == n,
    {
        let mut mask = Self::new();
        let mut i: usize = 0;
        while i < nodes.len()
            invariant
                i <= nodes@.len(),
                forall|k: int| 0 <= k < nodes@.len() ==> #[trigger] nodes@[k].0 < MAX_NODES,
                forall|n: u32| mask@.contains(n) <==> exists|k: int| 0 <= k < i && #[trigger] nodes@[k].0 == n,
            decreases nodes.len() - i,
        {
            let node = nodes[i];
            mask.add(node);
            proof {
                assert forall|n: u32| mask@.contains(n) <==> exists|k: int| 0 <= k < i + 1 && #[trigger] nodes@[k].0 == n by {
                    if n == node.0 {
                        assert(nodes@[i as int].0 == n);
                    }
                }
            }
            i = i + 1;
        }
        mask
    }
}

impl Default for NodeMask {
    fn default() -> (r: Self)
        ensures
            r@ == Set::<u32>::empty(),
    {
        Self::new()
    }
}

} // verus!
