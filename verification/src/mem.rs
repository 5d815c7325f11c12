//! Memory placement: policies, huge pages, prefaulting, and the decisions
//! taken when a NUMA region is mapped and bound.
use vstd::prelude::*;

use crate::error::{error_text, IoError, NumaError};
use crate::mode::{EnforcementLevel, HardMode};
use crate::text::{dec, owned, push_decimal, push_str};
use crate::topo::{node_name, push_node_name};
use crate::types::{ascending, NodeId, NodeMask, MAX_NODES};

verus! {

/// Controls huge page usage for memory regions.
#[derive(Debug, Clone, Copy, PartialEq, Eq, Structural)]
pub enum HugePageMode {
    /// Do not use huge pages.
    Disabled,
    /// Enable transparent huge pages (THP).
    TransparentOn,
    /// Disable transparent huge pages for this region.
    TransparentOff,
    /// Use explicit 2 MB huge pages from hugetlbfs.
    Explicit2MB,
    /// Use explicit 1 GB huge pages from hugetlbfs.
    Explicit1GB,
}

impl Default for HugePageMode {
    fn default() -> (r: Self)
        ensures
            r == HugePageMode::Disabled,
    {
        HugePageMode::Disabled
    }
}

impl HugePageMode {
    /// Check if this mode uses transparent huge pages.
    pub fn is_transparent(&self) -> (r: bool)
        ensures
            r == (*self == HugePageMode::TransparentOn || *self == HugePageMode::TransparentOff),
    {
        matches!(self, HugePageMode::TransparentOn | HugePageMode::TransparentOff)
    }

    /// Check if this mode uses explicit huge pages.
    pub fn is_explicit(&self) -> (r: bool)
        ensures
            r == (*self == HugePageMode::Explicit2MB || *self == HugePageMode::Explicit1GB),
    {
        matches!(self, HugePageMode::Explicit2MB | HugePageMode::Explicit1GB)
    }

    /// Get the page size for this mode (the base size for the transparent
    /// modes, whose backing may be larger).
    pub fn page_size(&self) -> (r: usize)
        ensures
            r == match *self {
                HugePageMode::Explicit2MB => 2 * 1024 * 1024,
                HugePageMode::Explicit1GB => 1024 * 1024 * 1024,
                _ => 4096,
            },
    {
        match self {
            HugePageMode::Disabled | HugePageMode::TransparentOff => 4096,
            HugePageMode::TransparentOn => 4096,
            HugePageMode::Explicit2MB => 2 * 1024 * 1024,
            HugePageMode::Explicit1GB => 1024 * 1024 * 1024,
        }
    }

    /// The display text.
    pub fn to_str(&self) -> (r: &'static str)
        ensures
            r@ == match *self {
                HugePageMode::Disabled => "none"@,
                HugePageMode::TransparentOn => "thp-on"@,
                HugePageMode::TransparentOff => "thp-off"@,
                HugePageMode::Explicit2MB => "2MB"@,
                HugePageMode::Explicit1GB => "1GB"@,
            },
    {
        match self {
            HugePageMode::Disabled => "none",
            HugePageMode::TransparentOn => "thp-on",
            HugePageMode::TransparentOff => "thp-off",
            HugePageMode::Explicit2MB => "2MB",
            HugePageMode::Explicit1GB => "1GB",
        }
    }
}

/// Controls how memory pages are faulted in after allocation.
#[derive(Debug, Clone, Copy, PartialEq, Eq, Structural)]
pub enum Prefault {
    /// Do not prefault pages; they are faulted on first access.
    Lazy,
    /// Touch pages sequentially from the current thread.
    Touch,
    /// Touch pages in parallel using multiple threads.
    ParallelTouch,
}

impl Default for Prefault {
    fn default() -> (r: Self)
        ensures
            r == Prefault::Lazy,
    {
        Prefault::Lazy
    }
}

impl Prefault {
    /// The display text.
    pub fn to_str(&self) -> (r: &'static str)
        ensures
            r@ == match *self {
                Prefault::Lazy => "none"@,
                Prefault::Touch => "touch"@,
                Prefault::ParallelTouch => "parallel-touch"@,
            },
    {
        match self {
            Prefault::Lazy => "none",
            Prefault::Touch => "touch",
            Prefault::ParallelTouch => "parallel-touch",
        }
    }
}

/// The size of the pages touched when prefaulting.
pub const TOUCH_PAGE: usize = 4096;

/// The number of threads that touch a region of `len` bytes in parallel,
/// given the machine's parallelism (4 when unknown), capped at 16.
pub open spec fn touch_threads(parallelism: Option<usize>) -> nat {
    let p = match parallelism {
        Some(p) => p as nat,
        None => 4,
    };
    if p < 16 {
        p
    } else {
        16
    }
}

/// The byte ranges that the threads of a parallel prefault touch, one per
/// thread: `[i * chunk, (i + 1) * chunk)` with `chunk = len / threads`, the
/// last range running to `len`. A region below `threads * 4096 * 256`
/// bytes is touched as one range.
pub open spec fn touch_ranges(len: nat, threads: nat) -> Seq<(nat, nat)> {
    if len < threads * 4096 * 256 || threads == 0 {
        seq![(0nat, len)]
    } else {
        let chunk = len / threads;
        Seq::new(
            threads,
            |i: int|
                (
                    (i * chunk) as nat,
                    if i == threads - 1 {
                        len
                    } else {
                        ((i + 1) * chunk) as nat
                    },
                ),
        )
    }
}

/// Plans a parallel prefault of `len` bytes: the byte range of each thread.
pub fn parallel_touch_plan(len: usize, parallelism: Option<usize>) -> (r: Vec<(usize, usize)>)
    requires
        parallelism matches Some(p) ==> p >= 1,
    ensures
        r@.len() == touch_ranges(len as nat, touch_threads(parallelism)).len(),
        forall|i: int|
            #![trigger r@[i]]
            0 <= i < r@.len() ==> r@[i].0 as nat == touch_ranges(len as nat, touch_threads(parallelism))[i].0
                && r@[i].1 as nat == touch_ranges(len as nat, touch_threads(parallelism))[i].1,
{
    let p = match parallelism {
        Some(p) => p,
        None => 4,
    };
    let threads = if p < 16 {
        p
    } else {
        16
    };
    let mut out: Vec<(usize, usize)> = Vec::new();
    let ghost spec_ranges = touch_ranges(len as nat, touch_threads(parallelism));
    if threads == 0 || len / 4096 / 256 < threads {
        proof {
            assert(len < threads * 4096 * 256 || threads == 0) by (nonlinear_arith)
                requires
                    threads == 0 || len / 4096 / 256 < threads,
            ;
        }
        out.push((0, len));
        return out;
    }
    proof {
        assert(len >= threads * 4096 * 256) by (nonlinear_arith)
            requires
                len / 4096 / 256 >= threads,
        ;
    }
    let chunk = len / threads;
    let mut i: usize = 0;
    while i < threads
        invariant
            1 <= threads <= 16,
            threads == touch_threads(parallelism),
            len >= threads * 4096 * 256,
            chunk == len / threads,
            spec_ranges == touch_ranges(len as nat, touch_threads(parallelism)),
            spec_ranges.len() == threads,
            i <= threads,
            out@.len() == i,
            forall|k: int|
                #![trigger out@[k]]
                0 <= k < i ==> out@[k].0 as nat == spec_ranges[k].0 && out@[k].1 as nat == spec_ranges[k].1,
        decreases threads - i,
    {
        proof {
            assert(i * chunk <= len && (i + 1) * chunk <= len) by (nonlinear_arith)
                requires
                    i < threads,
                    chunk == len / threads,
                    threads >= 1,
            ;
        }
        let start = i * chunk;
        let end = if i == threads - 1 {
            len
        } else {
            (i + 1) * chunk
        };
        out.push((start, end));
        i = i + 1;
    }
    out
}

impl NodeMask {
    /// The display text: the node numbers in ascending order, separated by
    /// commas.
    pub fn to_string(&self) -> (r: String)
        ensures
            r@ == id_list(ascending(self@, 64)),
    {
        let nodes = self.iter();
        let mut s = String::new();
        let mut i: usize = 0;
        let ghost ids = ascending(self@, 64);
        assert(ids.take(0) =~= Seq::<u32>::empty());
        while i < nodes.len()
            invariant
                i <= nodes@.len(),
                nodes@ == ids.map_values(|n: u32| NodeId(n)),
                s@ == id_list(ids.take(i as int)),
            decreases nodes@.len() - i,
        {
            assert(ids.take(i + 1).drop_last() =~= ids.take(i as int));
            assert(nodes@[i as int].0 == ids[i as int]);
            if i > 0 {
                push_str(&mut s, ",");
            }
            push_decimal(&mut s, nodes[i].0 as u64);
            assert(s@ =~= id_list(ids.take(i + 1)));
            i = i + 1;
        }
        assert(ids.take(ids.len() as int) =~= ids);
        s
    }
}

/// Numbers written in decimal and separated by commas.
pub open spec fn id_list(ids: Seq<u32>) -> Seq<char>
    decreases ids.len(),
{
    if ids.len() == 0 {
        Seq::empty()
    } else if ids.len() == 1 {
        dec(ids[0] as nat)
    } else {
        id_list(ids.drop_last()) + ","@ + dec(ids.last() as nat)
    }
}

/// Memory placement policy for NUMA regions.
#[derive(Debug, Clone, Copy, PartialEq, Eq, Structural)]
pub enum MemPolicy {
    /// Strictly bind memory to the specified nodes.
    Bind(NodeMask),
    /// Prefer allocating from the specified node.
    Preferred(NodeId),
    /// Interleave pages across the specified nodes in round-robin fashion.
    Interleave(NodeMask),
    /// Use the current thread's local node.
    Local,
}

impl Default for MemPolicy {
    fn default() -> (r: Self)
        ensures
            r == MemPolicy::Local,
    {
        MemPolicy::Local
    }
}

/// The kernel's mode number for a preferred-node policy.
pub const MPOL_PREFERRED: i32 = 1;

/// The kernel's mode number for a strict binding policy.
pub const MPOL_BIND: i32 = 2;

/// The kernel's mode number for an interleaving policy.
pub const MPOL_INTERLEAVE: i32 = 3;

/// The kernel's mode number for a local-node policy.
pub const MPOL_LOCAL: i32 = 4;

/// The kernel's code for a memory policy (MPOL_PREFERRED, MPOL_BIND,
/// MPOL_INTERLEAVE, MPOL_LOCAL).
pub open spec fn policy_code(p: MemPolicy) -> i32 {
    match p {
        MemPolicy::Bind(_) => 2,
        MemPolicy::Preferred(_) => 1,
        MemPolicy::Interleave(_) => 3,
        MemPolicy::Local => 4,
    }
}

impl MemPolicy {
    /// Create a Bind policy for a single node.
    pub fn bind_single(node: NodeId) -> (r: Self)
        requires
            node.0 < MAX_NODES,
        ensures
            r matches MemPolicy::Bind(m) && m@ == set![node.0],
    {
        MemPolicy::Bind(NodeMask::single(node))
    }

    /// Create an Interleave policy across all nodes in the mask.
    pub fn interleave(nodes: NodeMask) -> (r: Self)
        ensures
            r == MemPolicy::Interleave(nodes),
    {
        MemPolicy::Interleave(nodes)
    }

    /// Get a human-readable name for this policy.
    pub fn name(&self) -> (r: &'static str)
        ensures
            r@ == match *self {
                MemPolicy::Bind(_) => "Bind"@,
                MemPolicy::Preferred(_) => "Preferred"@,
                MemPolicy::Interleave(_) => "Interleave"@,
                MemPolicy::Local => "Local"@,
            },
    {
        match self {
            MemPolicy::Bind(_) => "Bind",
            MemPolicy::Preferred(_) => "Preferred",
            MemPolicy::Interleave(_) => "Interleave",
            MemPolicy::Local => "Local",
        }
    }

    /// Get the nodes affected by this policy, if any.
    pub fn nodes(&self) -> (r: Option<NodeMask>)
        requires
            self matches MemPolicy::Preferred(n) ==> n.0 < MAX_NODES,
        ensures
            match *self {
                MemPolicy::Bind(m) => r == Some(m),
                MemPolicy::Interleave(m) => r == Some(m),
                MemPolicy::Preferred(n) => r matches Some(m) && m@ == set![n.0],
                MemPolicy::Local => r is None,
            },
    {
        match self {
            MemPolicy::Bind(mask) => Some(*mask),
            MemPolicy::Interleave(mask) => Some(*mask),
            MemPolicy::Preferred(node) => Some(NodeMask::single(*node)),
            MemPolicy::Local => None,
        }
    }

    /// The display text: "Bind(0,1)", "Preferred(node1)", "Interleave(0,1)"
    /// or "Local".
    pub fn to_string(&self) -> (r: String)
        ensures
            r@ == match *self {
                MemPolicy::Bind(m) => "Bind("@ + id_list(ascending(m@, 64)) + ")"@,
                MemPolicy::Preferred(n) => "Preferred("@ + node_name(n) + ")"@,
                MemPolicy::Interleave(m) => "Interleave("@ + id_list(ascending(m@, 64)) + ")"@,
                MemPolicy::Local => "Local"@,
            },
    {
        let mut s = String::new();
        match self {
            MemPolicy::Bind(mask) => {
                push_str(&mut s, "Bind(");
                let t = mask.to_string();
                push_str(&mut s, t.as_str());
                push_str(&mut s, ")");
            },
            MemPolicy::Preferred(node) => {
                push_str(&mut s, "Preferred(");
                push_node_name(&mut s, *node);
                push_str(&mut s, ")");
            },
            MemPolicy::Interleave(mask) => {
                push_str(&mut s, "Interleave(");
                let t = mask.to_string();
                push_str(&mut s, t.as_str());
                push_str(&mut s, ")");
            },
            MemPolicy::Local => {
                push_str(&mut s, "Local");
            },
        }
        assert(s@ =~= match *self {
            MemPolicy::Bind(m) => "Bind("@ + id_list(ascending(m@, 64)) + ")"@,
            MemPolicy::Preferred(n) => "Preferred("@ + node_name(n) + ")"@,
            MemPolicy::Interleave(m) => "Interleave("@ + id_list(ascending(m@, 64)) + ")"@,
            MemPolicy::Local => "Local"@,
        });
        s
    }

    /// The arguments of the `mbind` call for this policy: the policy code,
    /// the node bitmap word and the number of node bits (64, or 0 for
    /// `Local`, which passes no node mask).
    pub fn mbind_args(&self) -> (r: (i32, u64, u64))
        requires
            self matches MemPolicy::Preferred(n) ==> n.0 < MAX_NODES,
        ensures
            r.0 == policy_code(*self),
            *self is Bind ==> r.0 == MPOL_BIND,
            *self is Preferred ==> r.0 == MPOL_PREFERRED,
            *self is Interleave ==> r.0 == MPOL_INTERLEAVE,
            *self is Local ==> r.0 == MPOL_LOCAL,
            match *self {
                MemPolicy::Bind(m) => r.1 == m.raw() && r.2 == 64,
                MemPolicy::Interleave(m) => r.1 == m.raw() && r.2 == 64,
                MemPolicy::Preferred(n) => (forall|k: u32|
                    crate::types::node_bit(r.1, k) <==> k == n.0) && r.2 == 64,
                MemPolicy::Local => r.1 == 0 && r.2 == 0,
            },
    {
        match self {
            MemPolicy::Bind(mask) => (2, mask.as_raw(), 64),
            MemPolicy::Preferred(node) => {
                let m = NodeMask::single(*node);
                proof {
                    m.lemma_view_raw();
                    assert forall|k: u32| crate::types::node_bit(m.raw(), k) <==> k == node.0 by {
                        assert(m@.contains(k) <==> crate::types::node_bit(m.raw(), k));
                    }
                }
                (1, m.as_raw(), 64)
            },
            MemPolicy::Interleave(mask) => (3, mask.as_raw(), 64),
            MemPolicy::Local => (4, 0, 0),
        }
    }
}

/// The Linux error code for "operation not permitted".
pub const EPERM: i32 = 1;

/// What a completed `mbind` call means: success gives strict enforcement;
/// a refusal for lack of permission gives best-effort enforcement; any
/// other failure is a bind error.
pub fn mbind_outcome(ret: i64, err: IoError) -> (r: Result<EnforcementLevel, NumaError>)
    ensures
        ret == 0 ==> r matches Ok(EnforcementLevel::Strict),
        ret != 0 && err.os_code == Some(EPERM) ==> (r matches Ok(EnforcementLevel::BestEffort { reason })
            && reason@ == "mbind failed with EPERM, policy not enforced"@),
        ret != 0 && err.os_code != Some(EPERM) ==> (r matches Err(NumaError::BindFailed { source })
            && source == err),
{
    if ret != 0 {
        if err.os_code == Some(EPERM) {
            return Ok(EnforcementLevel::best_effort("mbind failed with EPERM, policy not enforced"));
        }
        return Err(NumaError::BindFailed { source: err });
    }
    Ok(EnforcementLevel::Strict)
}

/// A region size must not be zero.
pub fn check_region_size(size: usize) -> (r: Result<(), NumaError>)
    ensures
        size == 0 ==> (r matches Err(NumaError::InvalidArgument { message }) && message@
            == "size cannot be zero"@),
        size != 0 ==> r is Ok,
{
    if size == 0 {
        return Err(NumaError::invalid_argument("size cannot be zero"));
    }
    Ok(())
}

/// The enforcement a mapped region ends with, given what binding it
/// achieved. In strict mode a failed binding is returned as is, and a
/// binding short of strict fails with `HardModeUnavailable` for "memory
/// policy" (its reason, or "unknown reason"). In soft mode a failed binding
/// becomes `NotApplied` with reason "mbind failed: " and the error's text.
pub fn region_enforcement(mode: HardMode, bind: Result<EnforcementLevel, NumaError>) -> (r: Result<
    EnforcementLevel,
    NumaError,
>)
    ensures
        match bind {
            Ok(level) => if mode == HardMode::Strict && !(level is Strict) {
                r matches Err(NumaError::HardModeUnavailable { feature, reason }) && feature@
                    == "memory policy"@ && reason@ == match level.reason_text() {
                    Some(t) => t,
                    None => "unknown reason"@,
                }
            } else {
                r == Ok::<EnforcementLevel, NumaError>(level)
            },
            Err(e) => if mode == HardMode::Strict {
                r == Err::<EnforcementLevel, NumaError>(e)
            } else {
                r matches Ok(EnforcementLevel::NotApplied { reason }) && reason@ == "mbind failed: "@
                    + error_text(e)
            },
        },
{
    let level = match bind {
        Ok(level) => level,
        Err(e) => {
            if mode.is_strict() {
                return Err(e);
            }
            let mut reason = String::new();
            push_str(&mut reason, "mbind failed: ");
            let t = e.to_string();
            push_str(&mut reason, t.as_str());
            return Ok(EnforcementLevel::NotApplied { reason });
        },
    };
    if mode.is_strict() && !level.is_strict() {
        let reason = match level.reason() {
            Some(t) => owned(t),
            None => owned("unknown reason"),
        };
        return Err(NumaError::hard_mode_unavailable("memory policy", reason.as_str()));
    }
    Ok(level)
}

/// A memory region with explicit NUMA placement: where it was mapped, its
/// size, the policy applied and the enforcement achieved.
#[derive(Debug)]
pub struct NumaRegion {
    addr: usize,
    len: usize,
    policy: MemPolicy,
    enforcement: EnforcementLevel,
}

/// What a `NumaRegion` records.
pub struct RegionInfo {
    pub addr: usize,
    pub len: usize,
    pub policy: MemPolicy,
    pub enforcement: EnforcementLevel,
}

impl View for NumaRegion {
    type V = RegionInfo;

    closed spec fn view(&self) -> RegionInfo {
        RegionInfo { addr: self.addr, len: self.len, policy: self.policy, enforcement: self.enforcement }
    }
}

impl NumaRegion {
    /// Record a mapped region.
    pub fn from_mapping(addr: usize, len: usize, policy: MemPolicy, enforcement: EnforcementLevel) -> (r:
        Self)
        ensures
            r@ == (RegionInfo { addr, len, policy, enforcement }),
    {
        NumaRegion { addr, len, policy, enforcement }
    }

    /// Get the size of the region in bytes.
    pub fn len(&self) -> (r: usize)
        ensures
            r == self@.len,
    {
        self.len
    }

    /// Check if the region is empty (size is 0).
    pub fn is_empty(&self) -> (r: bool)
        ensures
            r == (self@.len == 0),
    {
        self.len == 0
    }

    /// Get the memory policy applied to this region.
    pub fn policy(&self) -> (r: &MemPolicy)
        ensures
            *r == self@.policy,
    {
        &self.policy
    }

    /// Get the enforcement level achieved for this region.
    pub fn enforcement(&self) -> (r: &EnforcementLevel)
        ensures
            *r == self@.enforcement,
    {
        &self.enforcement
    }

    /// The address the region starts at.
    pub fn address(&self) -> (r: usize)
        ensures
            r == self@.addr,
    {
        self.addr
    }
}

} // verus!
