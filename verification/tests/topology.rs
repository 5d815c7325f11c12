use numaperf::discovery::{
    apply_distances, count_processor_lines, fallback_cpu_count, fallback_topology, memtotal_kb, node_from_files,
    order_discovered_nodes, parse_distances, parse_meminfo, parse_node_dir_name,
};
use numaperf::{CpuSet, NodeId, NumaError, NumaNode, Topology};

#[test]
fn test_fallback_discover() {
    let cpuinfo = "processor\t: 0\nmodel name\t: cpu\n\nprocessor\t: 1\nmodel name\t: cpu\n";
    let count = fallback_cpu_count(Some(cpuinfo), 0);
    let topo = fallback_topology(count);
    assert!(topo.node_count() > 0);
    assert!(topo.cpu_count() > 0);
    assert!(topo.is_single_node());
}

#[test]
fn test_cpulist_parse() {
    let set = CpuSet::parse("0-3,8-11").unwrap();
    assert_eq!(set.count(), 8);
}

#[test]
fn test_numa_node() {
    let mut cpus = CpuSet::new();
    cpus.add(0);
    cpus.add(1);
    cpus.add(2);
    cpus.add(3);

    let node = NumaNode::new(NodeId::new(0), cpus)
        .with_memory(16 * 1024 * 1024 * 1024)
        .with_distances(vec![10, 20]);

    assert_eq!(node.id(), NodeId::new(0));
    assert_eq!(node.cpu_count(), 4);
    assert_eq!(node.memory_mb(), Some(16384));
    assert_eq!(node.distance_to(NodeId::new(0)), Some(10));
    assert_eq!(node.distance_to(NodeId::new(1)), Some(20));
    assert!(node.is_local(NodeId::new(0)));
    assert!(!node.is_local(NodeId::new(1)));
}

#[test]
fn test_single_node_topology() {
    let cpus = CpuSet::parse("0-7").unwrap();
    let topo = Topology::single_node(cpus);

    assert_eq!(topo.node_count(), 1);
    assert_eq!(topo.cpu_count(), 8);
    assert!(topo.is_single_node());
    assert_eq!(topo.node_for_cpu(0), Some(NodeId::new(0)));
    assert_eq!(topo.node_for_cpu(7), Some(NodeId::new(0)));
    assert_eq!(topo.node_for_cpu(8), None);
}

#[test]
fn test_multi_node_topology() {
    let cpus0 = CpuSet::parse("0-3").unwrap();
    let cpus1 = CpuSet::parse("4-7").unwrap();
    let nodes = vec![NumaNode::new(NodeId::new(0), cpus0), NumaNode::new(NodeId::new(1), cpus1)];
    let topo = Topology::from_nodes(nodes);

    assert_eq!(topo.node_count(), 2);
    assert_eq!(topo.cpu_count(), 8);
    assert!(!topo.is_single_node());
    assert_eq!(topo.node_for_cpu(0), Some(NodeId::new(0)));
    assert_eq!(topo.node_for_cpu(4), Some(NodeId::new(1)));
}

// ---------------------------------------------------------------------------
// Further cases
// ---------------------------------------------------------------------------

#[test]
fn topology_texts_and_lookups() {
    let topo = Topology::from_nodes(vec![
        NumaNode::new(NodeId::new(0), CpuSet::parse("0-3").unwrap()).with_memory(2 * 1024 * 1024 * 1024),
        NumaNode::new(NodeId::new(1), CpuSet::parse("4-7").unwrap()),
    ]);
    assert_eq!(topo.to_string(), "Topology(2 nodes, 8 CPUs)");
    assert_eq!(
        topo.summary(),
        "NUMA Topology: 2 nodes, 8 CPUs\n  node0 (CPUs: 0-3), 2048 MB\n  node1 (CPUs: 4-7)\n"
    );
    assert_eq!(topo.cpu_set(NodeId::new(1)).to_string(), "4-7");
    assert!(topo.cpu_set(NodeId::new(5)).is_empty());
    assert!(topo.node(NodeId::new(3)).is_none());
    assert_eq!(topo.iter().len(), 2);
    assert_eq!(topo.iter()[1].0, NodeId::new(1));
}

#[test]
fn a_cpu_in_two_nodes_maps_to_the_last() {
    let topo = Topology::from_nodes(vec![
        NumaNode::new(NodeId::new(0), CpuSet::parse("0-1").unwrap()),
        NumaNode::new(NodeId::new(1), CpuSet::parse("1-2").unwrap()),
    ]);
    assert_eq!(topo.node_for_cpu(1), Some(NodeId::new(1)));
    assert_eq!(topo.cpu_count(), 4);
}

#[test]
fn node_directory_names() {
    assert_eq!(parse_node_dir_name("node0"), Some(NodeId::new(0)));
    assert_eq!(parse_node_dir_name("node12"), Some(NodeId::new(12)));
    assert_eq!(parse_node_dir_name("node"), None);
    assert_eq!(parse_node_dir_name("online"), None);
    assert_eq!(parse_node_dir_name("nodex"), None);
    assert_eq!(parse_node_dir_name(&NodeId::new(7).to_string()), Some(NodeId::new(7)));
}

#[test]
fn meminfo_total() {
    let text = "Node 0 MemFree:   100 kB\nNode 0 MemTotal:       16384000 kB\n";
    assert_eq!(memtotal_kb(text), Some(16384000));
    assert_eq!(parse_meminfo(text).unwrap(), 16384000 * 1024);
    match parse_meminfo("Node 0 MemFree: 1 kB\n") {
        Err(NumaError::TopologyError { source }) => assert_eq!(source.message, "MemTotal not found in meminfo"),
        _ => panic!("expected a topology error"),
    }
    assert_eq!(memtotal_kb("MemTotal: 5 kB\nNode 1 MemTotal: 7 kB\n"), Some(7));
}

#[test]
fn distance_files() {
    assert_eq!(parse_distances("10 21 x 31\n"), vec![10, 21, 31]);
    let mut node = NumaNode::new(NodeId::new(0), CpuSet::single(0)).with_distances(vec![10]);
    apply_distances(&mut node, "  \n");
    assert_eq!(node.distance_to(NodeId::new(0)), Some(10));
    apply_distances(&mut node, "10 20");
    assert_eq!(node.distance_to(NodeId::new(1)), Some(20));
}

#[test]
fn cpuinfo_counts() {
    assert_eq!(count_processor_lines("processor : 0\nprocessor : 1\nflags : x\n"), 2);
    assert_eq!(fallback_cpu_count(Some("nothing\n"), 6), 6);
    assert_eq!(fallback_cpu_count(None, -1), 1);
    let topo = fallback_topology(4);
    assert_eq!(topo.cpu_count(), 4);
    assert_eq!(topo.cpu_set(NodeId::new(0)).to_string(), "0-3");
}

#[test]
fn nodes_from_sysfs_texts() {
    let node = node_from_files(NodeId::new(1), "4-7\n", Some("Node 1 MemTotal: 2048 kB\n")).unwrap();
    assert_eq!(node.cpus().to_string(), "4-7");
    assert_eq!(node.memory_bytes(), Some(2048 * 1024));
    let node = node_from_files(NodeId::new(1), "0", None).unwrap();
    assert_eq!(node.memory_bytes(), None);
    match node_from_files(NodeId::new(0), "3-1", None) {
        Err(NumaError::TopologyError { source }) => {
            assert_eq!(source.message, "failed to parse cpulist: invalid range: 3-1")
        }
        _ => panic!("expected a topology error"),
    }
}

#[test]
fn discovered_nodes_are_sorted_by_id() {
    let nodes = vec![
        NumaNode::new(NodeId::new(2), CpuSet::single(2)),
        NumaNode::new(NodeId::new(0), CpuSet::single(0)),
        NumaNode::new(NodeId::new(1), CpuSet::single(1)),
    ];
    let sorted = order_discovered_nodes(nodes).unwrap();
    let ids: Vec<u32> = sorted.iter().map(|n| n.id().as_u32()).collect();
    assert_eq!(ids, vec![0, 1, 2]);
    match order_discovered_nodes(Vec::new()) {
        Err(NumaError::TopologyError { source }) => assert_eq!(source.message, "no NUMA nodes found"),
        _ => panic!("expected a topology error"),
    }
}
