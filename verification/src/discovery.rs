//! Topology discovery from the texts the kernel exposes: node directory
//! names, `cpulist`, `meminfo` and `distance` files, and `/proc/cpuinfo`.
//! The caller reads the files; these functions turn their contents into
//! nodes and topologies.
use vstd::prelude::*;

use crate::cpulist::{fault_text, parse_cpu_list, CpuListFault};
use crate::error::{IoError, IoErrorKind, NumaError};
use crate::text::{
    chars_of, has_prefix, line_bounds, lines, parse_unsigned, parse_unsigned_range, push_str,
    starts_with, string_of, trim, trim_bounds, word_bounds, words,
};
use crate::topo::{NodeInfo, NumaNode, Topology};
use crate::types::{CpuSet, NodeId};

verus! {

// ---------------------------------------------------------------------------
// Node directories
// ---------------------------------------------------------------------------

/// The node ID named by a sysfs directory name "node<N>" (N a `u32`).
pub open spec fn node_dir_id(name: Seq<char>) -> Option<NodeId> {
    if has_prefix(name, "node"@) {
        match parse_unsigned(name.skip(4), 10, 0xffff_ffff) {
            Some(v) => Some(NodeId(v as u32)),
            None => None,
        }
    } else {
        None
    }
}

/// Reads a sysfs directory name of the form "node<N>".
pub fn parse_node_dir_name(name: &str) -> (r: Option<NodeId>)
    ensures
        r == node_dir_id(name@),
{
    let v = chars_of(name);
    assert(v@.subrange(0, v@.len() as int) =~= name@);
    if !starts_with(&v, 0, v.len(), "node") {
        return None;
    }
    proof {
        reveal_strlit("node");
    }
    assert(v@.subrange(4, v@.len() as int) =~= name@.skip(4));
    match parse_unsigned_range(&v, 4, v.len(), 10, 0xffff_ffff) {
        Some(n) => Some(NodeId::new(n as u32)),
        None => None,
    }
}

// ---------------------------------------------------------------------------
// Text search
// ---------------------------------------------------------------------------

/// Whether `p` occurs in `s`.
pub open spec fn has_infix(s: Seq<char>, p: Seq<char>) -> bool {
    exists|i: int| 0 <= i && i + p.len() <= s.len() && #[trigger] s.subrange(i, i + p.len()) == p
}

/// Whether `p` occurs in `v[from..to]`.
fn contains_text(v: &Vec<char>, from: usize, to: usize, p: &str) -> (r: bool)
    requires
        from <= to <= v@.len(),
    ensures
        r == has_infix(v@.subrange(from as int, to as int), p@),
{
    let ghost s = v@.subrange(from as int, to as int);
    let plen = p.unicode_len();
    if plen > to - from {
        assert(!has_infix(s, p@));
        return false;
    }
    if plen == 0 {
        assert(s.subrange(0, 0 + p@.len() as int) =~= p@);
        return true;
    }
    let mut i: usize = 0;
    while i <= (to - from) - plen
        invariant
            plen == p@.len(),
            0 < plen <= to - from,
            from <= to <= v@.len(),
            s == v@.subrange(from as int, to as int),
            i <= (to - from) - plen + 1,
            forall|j: int| 0 <= j < i ==> #[trigger] s.subrange(j, j + plen) != p@,
        decreases (to - from) - plen + 1 - i,
    {
        let hit = starts_with(v, from + i, to, p);
        assert(v@.subrange(from + i, to as int).take(plen as int) =~= s.subrange(i as int, i + plen));
        if hit {
            assert(s.subrange(i as int, i + plen) == p@);
            return true;
        }
        i = i + 1;
    }
    false
}

// ---------------------------------------------------------------------------
// /proc/cpuinfo
// ---------------------------------------------------------------------------

/// How many of `ls` start with "processor".
pub open spec fn processor_lines(ls: Seq<Seq<char>>) -> nat
    decreases ls.len(),
{
    if ls.len() == 0 {
        0
    } else {
        processor_lines(ls.drop_last()) + if has_prefix(ls.last(), "processor"@) {
            1nat
        } else {
            0nat
        }
    }
}

/// Counts the lines of a `/proc/cpuinfo` text that start with "processor".
pub fn count_processor_lines(content: &str) -> (r: usize)
    ensures
        r == processor_lines(lines(content@)),
{
    let v = chars_of(content);
    let ls = line_bounds(&v);
    let ghost all = lines(v@);
    let mut n: usize = 0;
    let mut k: usize = 0;
    assert(all.take(0) =~= Seq::<Seq<char>>::empty());
    while k < ls.len()
        invariant
            all == lines(v@),
            v@ == content@,
            ls@.len() == all.len(),
            forall|j: int|
                #![trigger ls@[j]]
                0 <= j < ls@.len() ==> ls@[j].0 <= ls@[j].1 <= v@.len() && v@.subrange(
                    ls@[j].0 as int,
                    ls@[j].1 as int,
                ) == all[j],
            k <= ls@.len(),
            n == processor_lines(all.take(k as int)),
            n <= k,
        decreases ls@.len() - k,
    {
        let (a, b) = ls[k];
        assert(v@.subrange(a as int, b as int) == all[k as int]);
        assert(all.take(k + 1).drop_last() =~= all.take(k as int));
        if starts_with(&v, a, b, "processor") {
            n = n + 1;
        }
        k = k + 1;
    }
    assert(all.take(ls@.len() as int) =~= all);
    n
}

/// The CPU count used by fallback discovery: the number of "processor"
/// lines of `/proc/cpuinfo` when it could be read and has any, else the
/// online processor count reported by the system when positive, else 1.
/// Each count is narrowed to `u32` by truncation.
pub fn fallback_cpu_count(cpuinfo: Option<&str>, online: i64) -> (r: u32)
    ensures
        r == ({
            let from_info: int = match cpuinfo {
                Some(t) => (processor_lines(lines(t@)) % 0x1_0000_0000) as int,
                None => 0,
            };
            if from_info > 0 {
                from_info as u32
            } else if online > 0 {
                (online % 0x1_0000_0000) as u32
            } else {
                1u32
            }
        }),
{
    if let Some(t) = cpuinfo {
        let c = count_processor_lines(t);
        let c32 = ((c as u64) % 0x1_0000_0000) as u32;
        if c32 > 0 {
            return c32;
        }
    }
    if online > 0 {
        return (online % 0x1_0000_0000) as u32;
    }
    1
}

/// The CPUs `0..count`.
pub open spec fn first_cpus(count: u32) -> Set<u32> {
    Set::new(|c: u32| c < count)
}

/// The fallback topology: one node (node 0) with the CPUs `0..cpu_count`.
pub fn fallback_topology(cpu_count: u32) -> (r: Topology)
    requires
        cpu_count <= 1024,
    ensures
        r@.nodes.len() == 1,
        r@.nodes[0].id == NodeId(0),
        r@.nodes[0].cpus == first_cpus(cpu_count),
        r@.nodes[0].memory_bytes is None,
        r@.nodes[0].distances == Seq::<u32>::empty(),
{
    let mut cpus = CpuSet::new();
    let mut cpu: u32 = 0;
    assert(cpus@ =~= Set::new(|c: u32| c < 0));
    while cpu < cpu_count
        invariant
            cpu <= cpu_count <= 1024,
            cpus@ == Set::new(|c: u32| c < cpu),
        decreases cpu_count - cpu,
    {
        cpus.add(cpu);
        assert(cpus@ =~= Set::new(|c: u32| c < cpu + 1));
        cpu = cpu + 1;
    }
    assert(cpus@ =~= first_cpus(cpu_count));
    Topology::single_node(cpus)
}

// ---------------------------------------------------------------------------
// meminfo
// ---------------------------------------------------------------------------

/// The kB value of a meminfo line: a line that holds "MemTotal:" and whose
/// fourth word reads as a `u64` ("Node 0 MemTotal:   16384000 kB").
pub open spec fn memtotal_of_line(l: Seq<char>) -> Option<nat> {
    if has_infix(l, "MemTotal:"@) && words(l).len() >= 4 {
        parse_unsigned(words(l)[3], 10, 0xffff_ffff_ffff_ffff)
    } else {
        None
    }
}

/// The kB value of the first line of `ls` that has one.
pub open spec fn first_memtotal(ls: Seq<Seq<char>>) -> Option<nat>
    decreases ls.len(),
{
    if ls.len() == 0 {
        None
    } else {
        match memtotal_of_line(ls[0]) {
            Some(v) => Some(v),
            None => first_memtotal(ls.drop_first()),
        }
    }
}

/// The total memory of a node in kB, from the text of its meminfo file.
pub fn memtotal_kb(content: &str) -> (r: Option<u64>)
    ensures
        match first_memtotal(lines(content@)) {
            Some(kb) => r == Some(kb as u64),
            None => r is None,
        },
{
    let v = chars_of(content);
    let ls = line_bounds(&v);
    let ghost all = lines(v@);
    let mut k: usize = 0;
    assert(all.skip(0) =~= all);
    while k < ls.len()
        invariant
            all == lines(v@),
            v@ == content@,
            ls@.len() == all.len(),
            forall|j: int|
                #![trigger ls@[j]]
                0 <= j < ls@.len() ==> ls@[j].0 <= ls@[j].1 <= v@.len() && v@.subrange(
                    ls@[j].0 as int,
                    ls@[j].1 as int,
                ) == all[j],
            k <= ls@.len(),
            first_memtotal(all) == first_memtotal(all.skip(k as int)),
        decreases ls@.len() - k,
    {
        let (a, b) = ls[k];
        let ghost line = v@.subrange(a as int, b as int);
        assert(line == all[k as int]);
        assert(all.skip(k as int)[0] == all[k as int]);
        assert(all.skip(k as int).drop_first() =~= all.skip(k + 1));
        if contains_text(&v, a, b, "MemTotal:") {
            let ws = word_bounds(&v, a, b);
            if ws.len() >= 4 {
                let (c, d) = ws[3];
                let parsed = parse_unsigned_range(&v, c, d, 10, 0xffff_ffff_ffff_ffff);
                if parsed.is_some() {
                    return parsed;
                }
            }
        }
        k = k + 1;
    }
    assert(all.skip(ls@.len() as int) =~= Seq::<Seq<char>>::empty());
    None
}

/// The error for a meminfo text without a usable "MemTotal:" line.
pub open spec fn memtotal_missing(e: NumaError) -> bool {
    e matches NumaError::TopologyError { source } && source.kind == IoErrorKind::InvalidData
        && source.os_code is None && source.message@ == "MemTotal not found in meminfo"@
}

/// The total memory of a node in bytes, from the text of its meminfo file.
pub fn parse_meminfo(content: &str) -> (r: Result<u64, NumaError>)
    requires
        first_memtotal(lines(content@)) matches Some(kb) ==> kb * 1024 <= u64::MAX,
    ensures
        match first_memtotal(lines(content@)) {
            Some(kb) => r == Ok::<u64, NumaError>((kb * 1024) as u64),
            None => r matches Err(e) && memtotal_missing(e),
        },
{
    match memtotal_kb(content) {
        Some(kb) => Ok(kb * 1024),
        None => Err(
            NumaError::TopologyError {
                source: IoError::new(IoErrorKind::InvalidData, "MemTotal not found in meminfo"),
            },
        ),
    }
}

// ---------------------------------------------------------------------------
// distance
// ---------------------------------------------------------------------------

/// The words of `ws` that read as `u32`, read.
pub open spec fn u32_words(ws: Seq<Seq<char>>) -> Seq<u32>
    decreases ws.len(),
{
    if ws.len() == 0 {
        Seq::empty()
    } else {
        let r = u32_words(ws.drop_last());
        match parse_unsigned(ws.last(), 10, 0xffff_ffff) {
            Some(v) => r.push(v as u32),
            None => r,
        }
    }
}

/// Reads a node's distance file: every whitespace-separated word that is
/// a `u32`, in order (other words are skipped).
pub fn parse_distances(content: &str) -> (r: Vec<u32>)
    ensures
        r@ == u32_words(words(content@)),
{
    let v = chars_of(content);
    let ws = word_bounds(&v, 0, v.len());
    assert(v@.subrange(0, v@.len() as int) =~= content@);
    let ghost all = words(content@);
    let mut out: Vec<u32> = Vec::new();
    let mut k: usize = 0;
    assert(all.take(0) =~= Seq::<Seq<char>>::empty());
    while k < ws.len()
        invariant
            all == words(v@.subrange(0, v@.len() as int)),
            ws@.len() == all.len(),
            forall|j: int|
                #![trigger ws@[j]]
                0 <= j < ws@.len() ==> ws@[j].0 <= ws@[j].1 <= v@.len() && v@.subrange(
                    ws@[j].0 as int,
                    ws@[j].1 as int,
                ) == all[j],
            k <= ws@.len(),
            out@ == u32_words(all.take(k as int)),
        decreases ws@.len() - k,
    {
        let (a, b) = ws[k];
        assert(v@.subrange(a as int, b as int) == all[k as int]);
        assert(all.take(k + 1).drop_last() =~= all.take(k as int));
        match parse_unsigned_range(&v, a, b, 10, 0xffff_ffff) {
            Some(d) => out.push(d as u32),
            None => {},
        }
        k = k + 1;
    }
    assert(all.take(ws@.len() as int) =~= all);
    out
}

/// Sets a node's distance table from the text of its distance file, unless
/// the text holds no distance.
pub fn apply_distances(node: &mut NumaNode, content: &str)
    ensures
        u32_words(words(content@)).len() == 0 ==> final(node)@ == old(node)@,
        u32_words(words(content@)).len() > 0 ==> final(node)@ == (NodeInfo {
            distances: u32_words(words(content@)),
            ..old(node)@
        }),
{
    let d = parse_distances(content);
    if d.len() > 0 {
        node.set_distances(d);
    }
}

// ---------------------------------------------------------------------------
// Nodes
// ---------------------------------------------------------------------------

/// The error for a cpulist text that does not parse.
pub open spec fn cpulist_invalid(e: NumaError, f: CpuListFault) -> bool {
    e matches NumaError::TopologyError { source } && source.kind == IoErrorKind::InvalidData
        && source.os_code is None && source.message@ == "failed to parse cpulist: "@ + fault_text(f)
}

/// A node built from the texts of its `cpulist` and (if it could be read)
/// `meminfo` files: the CPU list is parsed after trimming, and the memory
/// size is taken when meminfo has one.
pub fn node_from_files(id: NodeId, cpulist: &str, meminfo: Option<&str>) -> (r: Result<NumaNode, NumaError>)
    requires
        meminfo matches Some(m) ==> (first_memtotal(lines(m@)) matches Some(kb) ==> kb * 1024
            <= u64::MAX),
    ensures
        match parse_cpu_list(trim(cpulist@)) {
            Ok(cpus) => r matches Ok(n) && n@.id == id && n@.cpus == cpus && n@.distances == Seq::<
                u32,
            >::empty() && n@.memory_bytes == match meminfo {
                Some(m) => match first_memtotal(lines(m@)) {
                    Some(kb) => Some((kb * 1024) as u64),
                    None => None,
                },
                None => None,
            },
            Err(f) => r matches Err(e) && cpulist_invalid(e, f),
        },
{
    let v = chars_of(cpulist);
    let (a, b) = trim_bounds(&v, 0, v.len());
    assert(v@.subrange(0, v@.len() as int) =~= cpulist@);
    let trimmed = string_of(&v, a, b);
    match CpuSet::parse(trimmed.as_str()) {
        Err(e) => {
            let mut msg = String::new();
            push_str(&mut msg, "failed to parse cpulist: ");
            let text = e.to_string();
            push_str(&mut msg, text.as_str());
            let ghost f = e@;
            assert(msg@ =~= "failed to parse cpulist: "@ + fault_text(f));
            Err(
                NumaError::TopologyError {
                    source: IoError { kind: IoErrorKind::InvalidData, os_code: None, message: msg },
                },
            )
        },
        Ok(cpus) => {
            let node = NumaNode::new(id, cpus);
            match meminfo {
                Some(m) => match parse_meminfo(m) {
                    Ok(bytes) => Ok(node.with_memory(bytes)),
                    Err(_) => Ok(node),
                },
                None => Ok(node),
            }
        },
    }
}

/// Inserts `x` after every node whose ID is at most its own.
pub open spec fn insert_by_id(s: Seq<NodeInfo>, x: NodeInfo) -> Seq<NodeInfo>
    decreases s.len(),
{
    if s.len() == 0 {
        seq![x]
    } else if s.last().id.0 <= x.id.0 {
        s.push(x)
    } else {
        insert_by_id(s.drop_last(), x).push(s.last())
    }
}

/// `s` stably sorted by node ID.
pub open spec fn sort_by_id(s: Seq<NodeInfo>) -> Seq<NodeInfo>
    decreases s.len(),
{
    if s.len() == 0 {
        Seq::empty()
    } else {
        insert_by_id(sort_by_id(s.drop_last()), s.last())
    }
}

/// The views of a list of nodes.
pub open spec fn node_views(v: Seq<NumaNode>) -> Seq<NodeInfo> {
    v.map_values(|n: NumaNode| n@)
}

/// Inserting after the last node whose ID is at most `x`'s equals splicing
/// `x` in at that position.
proof fn lemma_insert_id_split(s: Seq<NodeInfo>, x: NodeInfo, p: int)
    requires
        0 <= p <= s.len(),
        p == 0 || s[p - 1].id.0 <= x.id.0,
        forall|j: int| p <= j < s.len() ==> (#[trigger] s[j]).id.0 > x.id.0,
    ensures
        insert_by_id(s, x) == s.take(p).push(x) + s.skip(p),
    decreases s.len(),
{
    if s.len() == p {
        if s.len() == 0 {
            assert(s.take(p).push(x) + s.skip(p) =~= seq![x]);
        } else {
            assert(s.take(p).push(x) + s.skip(p) =~= s.push(x));
        }
    } else {
        lemma_insert_id_split(s.drop_last(), x, p);
        assert(s.drop_last().take(p) =~= s.take(p));
        assert((s.take(p).push(x) + s.drop_last().skip(p)).push(s.last()) =~= s.take(p).push(x)
            + s.skip(p));
    }
}

/// Stably sorts nodes by ID.
pub fn sort_nodes_by_id(nodes: Vec<NumaNode>) -> (r: Vec<NumaNode>)
    ensures
        node_views(r@) == sort_by_id(node_views(nodes@)),
{
    let ghost ns = node_views(nodes@);
    let mut rest = nodes;
    let mut out: Vec<NumaNode> = Vec::new();
    assert(node_views(out@) =~= Seq::<NodeInfo>::empty());
    assert(ns.take(0) =~= Seq::<NodeInfo>::empty());
    let n = rest.len();
    let mut i: usize = 0;
    // Take the nodes from the back of `rest`, keeping the ones taken in order.
    let mut taken: Vec<NumaNode> = Vec::new();
    while rest.len() > 0
        invariant
            rest@.len() + taken@.len() == n,
            n == ns.len(),
            node_views(rest@) == ns.take(rest@.len() as int),
            forall|j: int| 0 <= j < taken@.len() ==> (#[trigger] taken@[j])@ == ns[n - 1 - j],
        decreases rest@.len(),
    {
        let ghost before = rest@;
        let x = rest.pop().unwrap();
        assert(before[before.len() - 1] == x);
        assert(ns[rest@.len() as int] == x@) by {
            assert(node_views(before)[before.len() - 1] == x@);
        }
        assert(node_views(rest@) =~= ns.take(rest@.len() as int));
        taken.push(x);
    }
    // `taken` holds the nodes in reverse order; insert them one by one.
    while taken.len() > 0
        invariant
            taken@.len() + i == n,
            n == ns.len(),
            forall|j: int| 0 <= j < taken@.len() ==> (#[trigger] taken@[j])@ == ns[n - 1 - j],
            node_views(out@) == sort_by_id(ns.take(i as int)),
        decreases taken@.len(),
    {
        let ghost before = taken@;
        let x = taken.pop().unwrap();
        assert(before[before.len() - 1] == x);
        assert(x@ == ns[i as int]);
        let ghost os = node_views(out@);
        let mut p = out.len();
        while p > 0 && out[p - 1].id().0 > x.id().0
            invariant
                p <= out@.len(),
                os == node_views(out@),
                forall|j: int| p <= j < os.len() ==> (#[trigger] os[j]).id.0 > x@.id.0,
            decreases p,
        {
            assert(os[p - 1] == out@[p - 1]@);
            p = p - 1;
        }
        proof {
            if p > 0 {
                assert(os[p - 1] == out@[p - 1]@);
            }
            lemma_insert_id_split(os, x@, p as int);
            assert(ns.take(i + 1).drop_last() =~= ns.take(i as int));
            assert(ns.take(i + 1).last() == x@);
        }
        let ghost xv = x@;
        out.insert(p, x);
        assert(node_views(out@) =~= os.take(p as int).push(xv) + os.skip(p as int));
        i = i + 1;
    }
    assert(ns.take(n as int) =~= ns);
    out
}

/// The error when discovery finds no node.
pub open spec fn no_nodes(e: NumaError) -> bool {
    e matches NumaError::TopologyError { source } && source.kind == IoErrorKind::NotFound
        && source.os_code is None && source.message@ == "no NUMA nodes found"@
}

/// Orders the discovered nodes by ID; discovering none is an error.
pub fn order_discovered_nodes(nodes: Vec<NumaNode>) -> (r: Result<Vec<NumaNode>, NumaError>)
    ensures
        nodes@.len() == 0 ==> (r matches Err(e) && no_nodes(e)),
        nodes@.len() > 0 ==> (r matches Ok(v) && node_views(v@) == sort_by_id(node_views(nodes@))),
{
    if nodes.len() == 0 {
        return Err(
            NumaError::TopologyError {
                source: IoError::new(IoErrorKind::NotFound, "no NUMA nodes found"),
            },
        );
    }
    Ok(sort_nodes_by_id(nodes))
}

} // verus!
