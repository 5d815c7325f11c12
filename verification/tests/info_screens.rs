use numaperf::bench::{
    bench_threads, build_affinity_info, build_capabilities_info, build_distance_matrix, build_full_info,
    build_topology_info, duration_scale, format_cpu_list, format_nanos, DurationScale, InfoArgs, InfoSection,
    LocalityHealth, OutputFormat,
};
use numaperf::screens::{affinity_screen, capabilities_screen, distances_screen, topology_screen};
use numaperf::{Capabilities, CpuSet, NodeId, NumaNode, Topology};

fn two_nodes() -> Topology {
    Topology::from_nodes(vec![
        NumaNode::new(NodeId::new(0), CpuSet::parse("0-3").unwrap())
            .with_memory(1024 * 1024 * 1024)
            .with_distances(vec![10, 21]),
        NumaNode::new(NodeId::new(1), CpuSet::parse("4-7").unwrap()).with_distances(vec![21, 10]),
    ])
}

fn caps(hard: bool) -> Capabilities {
    Capabilities {
        strict_memory_binding: hard,
        strict_cpu_affinity: hard,
        memory_locking: false,
        numa_balancing_disabled: hard,
        numa_node_count: 2,
    }
}

#[test]
fn cpu_lists_for_display() {
    assert_eq!(format_cpu_list(&CpuSet::new(), ","), "none");
    assert_eq!(format_cpu_list(&CpuSet::parse("0-3,6").unwrap(), ", "), "0-3, 6");
    assert_eq!(format_cpu_list(&CpuSet::parse("0-3,6").unwrap(), ","), "0-3,6");
}

#[test]
fn topology_record() {
    let topo = two_nodes();
    let info = build_topology_info(&topo);
    assert_eq!(info.node_count, 2);
    assert_eq!(info.cpu_count, 8);
    assert!(info.is_numa);
    assert_eq!(info.nodes[0].cpus, "0-3");
    assert_eq!(info.nodes[0].memory_mb, Some(1024));
    assert_eq!(info.nodes[1].memory_mb, None);
    assert_eq!(info.distances, vec![vec![Some(10), Some(21)], vec![Some(21), Some(10)]]);
    assert_eq!(build_distance_matrix(&topo), info.distances);
}

#[test]
fn affinity_record() {
    let topo = two_nodes();
    let info = build_affinity_info(&topo, &CpuSet::parse("2-3").unwrap());
    assert_eq!(info.cpus, "2-3");
    assert_eq!(info.cpu_count, 2);
    assert_eq!(info.nodes, vec![0]);
    assert!(info.is_node_local);
    let info = build_affinity_info(&topo, &CpuSet::parse("3-4").unwrap());
    assert_eq!(info.nodes, vec![0, 1]);
    assert!(!info.is_node_local);
}

#[test]
fn capabilities_record() {
    let info = build_capabilities_info(&caps(true));
    assert!(info.hard_mode_supported);
    assert!(info.is_numa_system);
    assert!(!info.memory_locking);
    let full = build_full_info(&two_nodes(), &caps(false), None);
    assert!(full.affinity.is_none());
    assert!(!full.capabilities.hard_mode_supported);
}

#[test]
fn tool_defaults() {
    let args = InfoArgs::default_info();
    assert_eq!(args.section, InfoSection::All);
    assert_eq!(args.format, OutputFormat::Text);
    assert!(!args.verbose);
    assert_eq!(bench_threads(None, &two_nodes()), 8);
    assert_eq!(bench_threads(Some(3), &two_nodes()), 3);
    let empty = Topology::from_nodes(vec![NumaNode::new(NodeId::new(0), CpuSet::new())]);
    assert_eq!(bench_threads(None, &empty), 1);
}

#[test]
fn duration_units() {
    assert_eq!(duration_scale(999), DurationScale::Nanos);
    assert_eq!(duration_scale(1_000), DurationScale::Micros);
    assert_eq!(duration_scale(999_999_999), DurationScale::Millis);
    assert_eq!(duration_scale(1_000_000_000), DurationScale::Seconds);
    assert_eq!(format_nanos(512), "512 ns");
    assert_eq!(LocalityHealth::Fair.description(), "FAIR");
    assert_eq!(LocalityHealth::Excellent.to_string(), "EXCELLENT");
}

#[test]
fn topology_screen_text() {
    let text = topology_screen(&two_nodes(), true);
    assert_eq!(
        text,
        "NUMA Topology\n─────────────\nNodes: 2\nTotal CPUs: 8\n\n  Node 0: 4 CPUs (0-3), 1024 MB memory\n  Node 1: 4 CPUs (4-7), unknown memory\n"
    );
    let single = Topology::single_node(CpuSet::parse("0-1").unwrap());
    assert!(topology_screen(&single, true).contains("(Single-node system or NUMA not detected)\n"));
    assert!(!topology_screen(&single, false).contains("Single-node"));
}

#[test]
fn distances_screen_text() {
    let text = distances_screen(&two_nodes());
    assert_eq!(
        text,
        "Distance Matrix\n───────────────\n       Node  0  Node  1  \nNode  0     10     21\nNode  1     21     10\n"
    );
    let no_table = Topology::single_node(CpuSet::single(0));
    assert_eq!(distances_screen(&no_table), "Distance Matrix\n───────────────\n       Node  0  \nNode  0      -\n");
}

#[test]
fn capabilities_screen_text() {
    let text = capabilities_screen(&caps(false), true);
    assert!(text.starts_with("Capabilities\n────────────\nHard mode: NOT SUPPORTED\n\n"));
    assert!(text.contains("  [-] CAP_SYS_ADMIN (strict memory binding)\n"));
    assert!(text.contains("  To enable hard mode:\n"));
    assert!(text.ends_with("\nNUMA system: yes (2 nodes)\n"));
    let text = capabilities_screen(&caps(true), true);
    assert!(text.contains("Hard mode: SUPPORTED\n"));
    assert!(text.contains("  [+] CAP_SYS_NICE (strict CPU affinity)\n"));
    assert!(!text.contains("To enable"));
}

#[test]
fn affinity_screen_text() {
    let topo = two_nodes();
    assert_eq!(
        affinity_screen(&topo, &CpuSet::parse("0-7").unwrap()),
        "Current Thread Affinity\n───────────────────────\nCPUs: 0-7\nCPU count: 8\nNodes: [0, 1] (spans 2 nodes)\nStatus: unrestricted (all CPUs)\n"
    );
    assert_eq!(
        affinity_screen(&topo, &CpuSet::parse("1,3").unwrap()),
        "Current Thread Affinity\n───────────────────────\nCPUs: 1, 3\nCPU count: 2\nNode: 0 (single node - optimal)\nStatus: node-local (good for NUMA locality)\n"
    );
    assert!(affinity_screen(&topo, &CpuSet::single(100)).contains("Node: unknown\n"));
}
