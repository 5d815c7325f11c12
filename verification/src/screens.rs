//! The text screens of the `info` command: topology, distance matrix,
//! capabilities and the current thread's affinity. Each is built as a
//! string; printing it is the caller's part.
use vstd::prelude::*;

use crate::bench::{cpu_list_text, format_cpu_list, nodes_spanned, spanned_nodes};
use crate::capability::Capabilities;
use crate::text::{dec, push_char, push_decimal, push_str};
use crate::topo::{total_cpus, NodeInfo, NumaNode, Topology};
use crate::types::CpuSet;

verus! {

/// `s` padded on the left with spaces to `width` characters.
pub open spec fn pad_left(s: Seq<char>, width: nat) -> Seq<char> {
    if s.len() < width {
        Seq::new((width - s.len()) as nat, |i: int| ' ') + s
    } else {
        s
    }
}

/// Appends `n` in decimal, right-aligned to `width` characters.
fn push_padded(out: &mut String, n: u64, width: usize)
    ensures
        final(out)@ == old(out)@ + pad_left(dec(n as nat), width as nat),
{
    let mut digits = String::new();
    push_decimal(&mut digits, n);
    let len = digits.as_str().unicode_len();
    assert(digits@ =~= dec(n as nat));
    let ghost start = out@;
    if len < width {
        let mut k: usize = 0;
        while k < width - len
            invariant
                k <= width - len,
                len < width,
                out@ == start + Seq::new(k as nat, |i: int| ' '),
            decreases width - len - k,
        {
            push_char(out, ' ');
            assert(out@ =~= start + Seq::new((k + 1) as nat, |i: int| ' '));
            k = k + 1;
        }
    }
    push_str(out, digits.as_str());
    assert(final(out)@ =~= old(out)@ + pad_left(dec(n as nat), width as nat));
}

// ---------------------------------------------------------------------------
// Topology
// ---------------------------------------------------------------------------

/// The memory column of a node: "<n> MB" or "unknown".
pub open spec fn memory_text(n: NodeInfo) -> Seq<char> {
    match n.memory_bytes {
        Some(b) => dec((b / 1048576u64) as nat) + " MB"@,
        None => "unknown"@,
    }
}

/// The line of one node on the topology screen.
pub open spec fn node_line(n: NodeInfo) -> Seq<char> {
    "  Node "@ + dec(n.id.0 as nat) + ": "@ + dec(n.cpus.len()) + " CPUs ("@ + cpu_list_text(
        n.cpus,
        ", "@,
    ) + "), "@ + memory_text(n) + " memory\n"@
}

/// The lines of the nodes on the topology screen.
pub open spec fn node_lines(nodes: Seq<NodeInfo>) -> Seq<char>
    decreases nodes.len(),
{
    if nodes.len() == 0 {
        Seq::empty()
    } else {
        node_lines(nodes.drop_last()) + node_line(nodes.last())
    }
}

/// The topology screen.
pub open spec fn topology_screen_text(nodes: Seq<NodeInfo>, verbose: bool) -> Seq<char> {
    "NUMA Topology\n"@ + "─────────────\n"@ + "Nodes: "@ + dec(nodes.len()) + "\n"@ + "Total CPUs: "@
        + dec(total_cpus(nodes)) + "\n"@ + (if nodes.len() == 1 && verbose {
        "(Single-node system or NUMA not detected)\n"@
    } else {
        Seq::empty()
    }) + "\n"@ + node_lines(nodes)
}

/// The text of the topology screen: node and CPU counts, then one line per
/// node with its CPUs and memory.
pub fn topology_screen(topo: &Topology, verbose: bool) -> (r: String)
    ensures
        r@ == topology_screen_text(topo@.nodes, verbose),
{
    let mut s = String::new();
    push_str(&mut s, "NUMA Topology\n");
    push_str(&mut s, "─────────────\n");
    push_str(&mut s, "Nodes: ");
    push_decimal(&mut s, topo.node_count() as u64);
    push_str(&mut s, "\n");
    push_str(&mut s, "Total CPUs: ");
    push_decimal(&mut s, topo.cpu_count() as u64);
    push_str(&mut s, "\n");
    if topo.is_single_node() && verbose {
        push_str(&mut s, "(Single-node system or NUMA not detected)\n");
    }
    push_str(&mut s, "\n");
    let ghost head = s@;
    let nodes = topo.numa_nodes();
    let ghost views = topo@.nodes;
    let mut i: usize = 0;
    assert(views.take(0) =~= Seq::<NodeInfo>::empty());
    while i < nodes.len()
        invariant
            i <= nodes@.len(),
            views == nodes@.map_values(|n: NumaNode| n@),
            s@ == head + node_lines(views.take(i as int)),
        decreases nodes@.len() - i,
    {
        let n = &nodes[i];
        assert(views[i as int] == n@);
        assert(views.take(i + 1).drop_last() =~= views.take(i as int));
        assert(views.take(i + 1).last() == n@);
        let ghost before = s@;
        push_str(&mut s, "  Node ");
        push_decimal(&mut s, n.id().as_u32() as u64);
        push_str(&mut s, ": ");
        push_decimal(&mut s, n.cpu_count() as u64);
        push_str(&mut s, " CPUs (");
        let list = format_cpu_list(n.cpus(), ", ");
        push_str(&mut s, list.as_str());
        push_str(&mut s, "), ");
        match n.memory_mb() {
            Some(mb) => {
                push_decimal(&mut s, mb);
                push_str(&mut s, " MB");
            },
            None => {
                push_str(&mut s, "unknown");
            },
        }
        push_str(&mut s, " memory\n");
        assert(s@ =~= before + node_line(n@));
        assert(s@ =~= head + node_lines(views.take(i + 1)));
        i = i + 1;
    }
    assert(views.take(nodes@.len() as int) =~= views);
    assert(s@ =~= topology_screen_text(topo@.nodes, verbose));
    s
}

// ---------------------------------------------------------------------------
// Distances
// ---------------------------------------------------------------------------

/// The header cells of the distance matrix.
pub open spec fn header_cells(nodes: Seq<NodeInfo>) -> Seq<char>
    decreases nodes.len(),
{
    if nodes.len() == 0 {
        Seq::empty()
    } else {
        header_cells(nodes.drop_last()) + "Node "@ + pad_left(dec(nodes.last().id.0 as nat), 2) + "  "@
    }
}

/// The cell of the distance from `a` to `b`: right-aligned to five
/// characters, or "    -" when unknown.
pub open spec fn distance_cell(a: NodeInfo, b: NodeInfo) -> Seq<char> {
    if (b.id.0 as int) < a.distances.len() {
        "  "@ + pad_left(dec(a.distances[b.id.0 as int] as nat), 5)
    } else {
        "  "@ + "    -"@
    }
}

/// The cells of the distances from `a` to each of `nodes`.
pub open spec fn distance_cells(a: NodeInfo, nodes: Seq<NodeInfo>) -> Seq<char>
    decreases nodes.len(),
{
    if nodes.len() == 0 {
        Seq::empty()
    } else {
        distance_cells(a, nodes.drop_last()) + distance_cell(a, nodes.last())
    }
}

/// The rows of the distance matrix, for the nodes `rows` against `all`.
pub open spec fn distance_rows(rows: Seq<NodeInfo>, all: Seq<NodeInfo>) -> Seq<char>
    decreases rows.len(),
{
    if rows.len() == 0 {
        Seq::empty()
    } else {
        distance_rows(rows.drop_last(), all) + "Node "@ + pad_left(dec(rows.last().id.0 as nat), 2)
            + distance_cells(rows.last(), all) + "\n"@
    }
}

/// The distance screen.
pub open spec fn distances_screen_text(nodes: Seq<NodeInfo>) -> Seq<char> {
    "Distance Matrix\n"@ + "───────────────\n"@ + if nodes.len() == 0 {
        "  (No NUMA nodes detected)\n"@
    } else {
        "       "@ + header_cells(nodes) + "\n"@ + distance_rows(nodes, nodes)
    }
}

/// Appends the cells of the distances from `a` to each node.
fn push_distance_cells(s: &mut String, a: &NumaNode, nodes: &[NumaNode])
    ensures
        final(s)@ == old(s)@ + distance_cells(a@, nodes@.map_values(|n: NumaNode| n@)),
{
    let ghost views = nodes@.map_values(|n: NumaNode| n@);
    let ghost start = s@;
    let mut j: usize = 0;
    assert(views.take(0) =~= Seq::<NodeInfo>::empty());
    while j < nodes.len()
        invariant
            j <= nodes@.len(),
            views == nodes@.map_values(|n: NumaNode| n@),
            s@ == start + distance_cells(a@, views.take(j as int)),
        decreases nodes@.len() - j,
    {
        let b = &nodes[j];
        assert(views[j as int] == b@);
        assert(views.take(j + 1).drop_last() =~= views.take(j as int));
        assert(views.take(j + 1).last() == b@);
        let ghost before = s@;
        push_str(s, "  ");
        match a.distance_to(b.id()) {
            Some(d) => push_padded(s, d as u64, 5),
            None => push_str(s, "    -"),
        }
        assert(s@ =~= before + distance_cell(a@, b@));
        assert(s@ =~= start + distance_cells(a@, views.take(j + 1)));
        j = j + 1;
    }
    assert(views.take(nodes@.len() as int) =~= views);
}

/// The text of the distance matrix screen.
pub fn distances_screen(topo: &Topology) -> (r: String)
    ensures
        r@ == distances_screen_text(topo@.nodes),
{
    let mut s = String::new();
    push_str(&mut s, "Distance Matrix\n");
    push_str(&mut s, "───────────────\n");
    let ghost head = s@;
    let nodes = topo.numa_nodes();
    let ghost views = topo@.nodes;
    if topo.node_count() == 0 {
        push_str(&mut s, "  (No NUMA nodes detected)\n");
        assert(s@ =~= distances_screen_text(topo@.nodes));
        return s;
    }
    push_str(&mut s, "       ");
    let ghost h0 = s@;
    let mut i: usize = 0;
    assert(views.take(0) =~= Seq::<NodeInfo>::empty());
    while i < nodes.len()
        invariant
            i <= nodes@.len(),
            views == nodes@.map_values(|n: NumaNode| n@),
            s@ == h0 + header_cells(views.take(i as int)),
        decreases nodes@.len() - i,
    {
        let n = &nodes[i];
        assert(views[i as int] == n@);
        assert(views.take(i + 1).drop_last() =~= views.take(i as int));
        assert(views.take(i + 1).last() == n@);
        push_str(&mut s, "Node ");
        push_padded(&mut s, n.id().as_u32() as u64, 2);
        push_str(&mut s, "  ");
        assert(s@ =~= h0 + header_cells(views.take(i + 1)));
        i = i + 1;
    }
    assert(views.take(nodes@.len() as int) =~= views);
    push_str(&mut s, "\n");
    let ghost r0 = s@;
    let mut i: usize = 0;
    while i < nodes.len()
        invariant
            i <= nodes@.len(),
            views == nodes@.map_values(|n: NumaNode| n@),
            s@ == r0 + distance_rows(views.take(i as int), views),
        decreases nodes@.len() - i,
    {
        let n = &nodes[i];
        assert(views[i as int] == n@);
        assert(views.take(i + 1).drop_last() =~= views.take(i as int));
        assert(views.take(i + 1).last() == n@);
        push_str(&mut s, "Node ");
        push_padded(&mut s, n.id().as_u32() as u64, 2);
        push_distance_cells(&mut s, n, nodes);
        push_str(&mut s, "\n");
        assert(s@ =~= r0 + distance_rows(views.take(i + 1), views));
        i = i + 1;
    }
    assert(s@ =~= distances_screen_text(topo@.nodes));
    s
}

// ---------------------------------------------------------------------------
// Capabilities
// ---------------------------------------------------------------------------

/// The check mark of a capability: "[+]" or "[-]".
pub open spec fn check_mark(ok: bool) -> Seq<char> {
    if ok {
        "[+]"@
    } else {
        "[-]"@
    }
}

/// The head of the capabilities screen: whether hard mode is supported.
pub open spec fn caps_head(caps: Capabilities) -> Seq<char> {
    "Capabilities\n"@ + "────────────\n"@ + "Hard mode: "@ + (if caps.hard_mode_ok() {
        "SUPPORTED"@
    } else {
        "NOT SUPPORTED"@
    }) + "\n"@ + "\n"@
}

/// A requirement line of the capabilities screen.
pub open spec fn check_line(ok: bool, label: Seq<char>) -> Seq<char> {
    "  "@ + check_mark(ok) + label
}

/// The requirement lines of the capabilities screen.
pub open spec fn caps_checks(caps: Capabilities) -> Seq<char> {
    check_line(caps.strict_memory_binding, " CAP_SYS_ADMIN (strict memory binding)\n"@) + check_line(
        caps.strict_cpu_affinity,
        " CAP_SYS_NICE (strict CPU affinity)\n"@,
    ) + check_line(caps.memory_locking, " CAP_IPC_LOCK (memory locking)\n"@) + check_line(
        caps.numa_balancing_disabled,
        " NUMA balancing disabled\n"@,
    )
}

/// How to enable hard mode, shown when verbose and it is not supported.
pub open spec fn caps_hint(caps: Capabilities, verbose: bool) -> Seq<char> {
    if !caps.hard_mode_ok() && verbose {
        "\n"@ + "  To enable hard mode:\n"@ + "    - Run as root, or\n"@
            + "    - sudo setcap cap_sys_admin,cap_sys_nice,cap_ipc_lock+ep <binary>\n"@
            + "    - echo 0 | sudo tee /proc/sys/kernel/numa_balancing\n"@
    } else {
        Seq::empty()
    }
}

/// Whether the system is NUMA, as the capabilities screen says it.
pub open spec fn caps_numa(caps: Capabilities) -> Seq<char> {
    "\n"@ + if caps.numa_node_count > 1 {
        "NUMA system: yes ("@ + dec(caps.numa_node_count as nat) + " nodes)\n"@
    } else {
        "NUMA system: no (single node or UMA)\n"@
    }
}

/// The capabilities screen.
pub open spec fn capabilities_screen_text(caps: Capabilities, verbose: bool) -> Seq<char> {
    caps_head(caps) + caps_checks(caps) + caps_hint(caps, verbose) + caps_numa(caps)
}

/// Appends a check mark.
fn push_check(s: &mut String, ok: bool)
    ensures
        final(s)@ == old(s)@ + check_mark(ok),
{
    if ok {
        push_str(s, "[+]");
    } else {
        push_str(s, "[-]");
    }
}

fn push_caps_head(s: &mut String, caps: &Capabilities)
    ensures
        final(s)@ == old(s)@ + caps_head(*caps),
{
    push_str(s, "Capabilities\n");
    push_str(s, "────────────\n");
    push_str(s, "Hard mode: ");
    if caps.supports_hard_mode() {
        push_str(s, "SUPPORTED");
    } else {
        push_str(s, "NOT SUPPORTED");
    }
    push_str(s, "\n");
    push_str(s, "\n");
    assert(final(s)@ =~= old(s)@ + caps_head(*caps));
}

fn push_check_line(s: &mut String, ok: bool, label: &str)
    ensures
        final(s)@ == old(s)@ + check_line(ok, label@),
{
    push_str(s, "  ");
    push_check(s, ok);
    push_str(s, label);
    assert(final(s)@ =~= old(s)@ + check_line(ok, label@));
}

fn push_caps_checks(s: &mut String, caps: &Capabilities)
    ensures
        final(s)@ == old(s)@ + caps_checks(*caps),
{
    let ghost s0 = s@;
    push_check_line(s, caps.strict_memory_binding, " CAP_SYS_ADMIN (strict memory binding)\n");
    push_check_line(s, caps.strict_cpu_affinity, " CAP_SYS_NICE (strict CPU affinity)\n");
    push_check_line(s, caps.memory_locking, " CAP_IPC_LOCK (memory locking)\n");
    push_check_line(s, caps.numa_balancing_disabled, " NUMA balancing disabled\n");
    assert(final(s)@ =~= s0 + caps_checks(*caps));
}

fn push_caps_hint(s: &mut String, caps: &Capabilities, verbose: bool)
    ensures
        final(s)@ == old(s)@ + caps_hint(*caps, verbose),
{
    if !caps.supports_hard_mode() && verbose {
        push_str(s, "\n");
        push_str(s, "  To enable hard mode:\n");
        push_str(s, "    - Run as root, or\n");
        push_str(s, "    - sudo setcap cap_sys_admin,cap_sys_nice,cap_ipc_lock+ep <binary>\n");
        push_str(s, "    - echo 0 | sudo tee /proc/sys/kernel/numa_balancing\n");
    }
    assert(final(s)@ =~= old(s)@ + caps_hint(*caps, verbose));
}

fn push_caps_numa(s: &mut String, caps: &Capabilities)
    ensures
        final(s)@ == old(s)@ + caps_numa(*caps),
{
    push_str(s, "\n");
    if caps.is_numa_system() {
        push_str(s, "NUMA system: yes (");
        push_decimal(s, caps.numa_node_count as u64);
        push_str(s, " nodes)\n");
    } else {
        push_str(s, "NUMA system: no (single node or UMA)\n");
    }
    assert(final(s)@ =~= old(s)@ + caps_numa(*caps));
}

/// The text of the capabilities screen: whether hard mode is supported,
/// each requirement with a check mark, how to enable hard mode (when
/// verbose and it is not supported), and whether the system is NUMA.
pub fn capabilities_screen(caps: &Capabilities, verbose: bool) -> (r: String)
    ensures
        r@ == capabilities_screen_text(*caps, verbose),
{
    let mut s = String::new();
    push_caps_head(&mut s, caps);
    push_caps_checks(&mut s, caps);
    push_caps_hint(&mut s, caps, verbose);
    push_caps_numa(&mut s, caps);
    assert(s@ =~= capabilities_screen_text(*caps, verbose));
    s
}

// ---------------------------------------------------------------------------
// Affinity
// ---------------------------------------------------------------------------

/// The numbers of `v` separated by ", ".
pub open spec fn joined_numbers(v: Seq<u32>) -> Seq<char>
    decreases v.len(),
{
    if v.len() == 0 {
        Seq::empty()
    } else if v.len() == 1 {
        dec(v[0] as nat)
    } else {
        joined_numbers(v.drop_last()) + ", "@ + dec(v.last() as nat)
    }
}

/// The debug text of a list of numbers: "[0, 1]".
pub open spec fn number_list_text(v: Seq<u32>) -> Seq<char> {
    "["@ + joined_numbers(v) + "]"@
}

/// The affinity screen.
pub open spec fn affinity_screen_text(nodes: Seq<NodeInfo>, cpus: Set<u32>) -> Seq<char> {
    let spanned = spanned_nodes(nodes, cpus);
    "Current Thread Affinity\n"@ + "───────────────────────\n"@ + "CPUs: "@ + cpu_list_text(cpus, ", "@)
        + "\n"@ + "CPU count: "@ + dec(cpus.len()) + "\n"@ + (if spanned.len() == 0 {
        "Node: unknown\n"@
    } else if spanned.len() == 1 {
        "Node: "@ + dec(spanned[0] as nat) + " (single node - optimal)\n"@
    } else {
        "Nodes: "@ + number_list_text(spanned) + " (spans "@ + dec(spanned.len()) + " nodes)\n"@
    }) + if cpus.len() == total_cpus(nodes) {
        "Status: unrestricted (all CPUs)\n"@
    } else if spanned.len() == 1 {
        "Status: node-local (good for NUMA locality)\n"@
    } else {
        "Status: restricted but spans multiple nodes\n"@
    }
}

/// Appends the debug text of a list of numbers.
fn push_number_list(s: &mut String, v: &Vec<u32>)
    ensures
        final(s)@ == old(s)@ + number_list_text(v@),
{
    push_str(s, "[");
    let ghost start = s@;
    let mut i: usize = 0;
    assert(v@.take(0) =~= Seq::<u32>::empty());
    while i < v.len()
        invariant
            i <= v@.len(),
            s@ == start + joined_numbers(v@.take(i as int)),
        decreases v@.len() - i,
    {
        assert(v@.take(i + 1).drop_last() =~= v@.take(i as int));
        assert(v@.take(i + 1).last() == v@[i as int]);
        if i > 0 {
            push_str(s, ", ");
        } else {
            assert(v@.take(1) =~= seq![v@[0]]);
        }
        push_decimal(s, v[i] as u64);
        assert(s@ =~= start + joined_numbers(v@.take(i + 1)));
        i = i + 1;
    }
    assert(v@.take(v@.len() as int) =~= v@);
    push_str(s, "]");
    assert(final(s)@ =~= old(s)@ + number_list_text(v@));
}

/// The text of the affinity screen: the CPUs, their count, the nodes they
/// span, and whether the affinity is unrestricted, node-local or spread.
pub fn affinity_screen(topo: &Topology, affinity: &CpuSet) -> (r: String)
    ensures
        r@ == affinity_screen_text(topo@.nodes, affinity@),
{
    let mut s = String::new();
    push_str(&mut s, "Current Thread Affinity\n");
    push_str(&mut s, "───────────────────────\n");
    push_str(&mut s, "CPUs: ");
    let list = format_cpu_list(affinity, ", ");
    push_str(&mut s, list.as_str());
    push_str(&mut s, "\n");
    push_str(&mut s, "CPU count: ");
    let count = affinity.count();
    push_decimal(&mut s, count as u64);
    push_str(&mut s, "\n");
    let nodes = nodes_spanned(topo, affinity);
    if nodes.len() == 0 {
        push_str(&mut s, "Node: unknown\n");
    } else if nodes.len() == 1 {
        push_str(&mut s, "Node: ");
        push_decimal(&mut s, nodes[0] as u64);
        push_str(&mut s, " (single node - optimal)\n");
    } else {
        push_str(&mut s, "Nodes: ");
        push_number_list(&mut s, &nodes);
        push_str(&mut s, " (spans ");
        push_decimal(&mut s, nodes.len() as u64);
        push_str(&mut s, " nodes)\n");
    }
    if count == topo.cpu_count() {
        push_str(&mut s, "Status: unrestricted (all CPUs)\n");
    } else if nodes.len() == 1 {
        push_str(&mut s, "Status: node-local (good for NUMA locality)\n");
    } else {
        push_str(&mut s, "Status: restricted but spans multiple nodes\n");
    }
    assert(s@ =~= affinity_screen_text(topo@.nodes, affinity@));
    s
}

} // verus!
