use numaperf::{
    Capabilities, CpuSet, EnforcementLevel, HardMode, HugePageMode, MemPolicy, NodeId, NodeMask, Prefault,
    StealPolicy, Topology,
};

#[test]
fn test_facade_exports_core_types() {
    let _node_id = NodeId::new(0);
    let _cpus = CpuSet::new();
    let _nodes = NodeMask::new();
}

#[test]
fn test_facade_exports_config() {
    assert!(HardMode::Soft.is_soft());
    assert!(HardMode::Strict.is_strict());
    let _level = EnforcementLevel::Strict;
}

#[test]
fn test_facade_exports_capabilities() {
    let caps = Capabilities::from_system(None, false, None, None);
    assert!(caps.numa_node_count >= 1);
}

#[test]
fn test_facade_exports_topology() {
    let cpus = CpuSet::parse("0-3").unwrap();
    let topo = Topology::single_node(cpus);
    assert!(topo.node_count() >= 1);
}

#[test]
fn test_facade_exports_policy() {
    let _policy = MemPolicy::Local;
    let _huge = HugePageMode::default();
    let _prefault = Prefault::default();
}

#[test]
fn test_facade_exports_steal_policy() {
    let _policy = StealPolicy::LocalOnly;
    let _policy = StealPolicy::LocalThenSocketThenRemote;
    let _policy = StealPolicy::Any;
}
