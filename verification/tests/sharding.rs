use std::sync::atomic::{AtomicUsize, Ordering};
use std::sync::Arc;

use numaperf::{CpuSet, NodeId, NumaNode, NumaSharded, ShardedCounter, Topology};

fn test_topology() -> Arc<Topology> {
    let cpus = CpuSet::parse("0-7").unwrap();
    Arc::new(Topology::single_node(cpus))
}

fn two_nodes() -> Arc<Topology> {
    Arc::new(Topology::from_nodes(vec![
        NumaNode::new(NodeId::new(0), CpuSet::parse("0-3").unwrap()),
        NumaNode::new(NodeId::new(1), CpuSet::parse("4-7").unwrap()),
    ]))
}

/// The CPU the calling thread runs on.
const CPU: i32 = 0;

#[test]
fn test_counter_creation() {
    let topo = test_topology();
    let counter = ShardedCounter::new(&topo);
    assert_eq!(counter.sum(), 0);
    assert_eq!(counter.num_shards(), topo.node_count());
}

#[test]
fn test_counter_increment() {
    let topo = test_topology();
    let mut counter = ShardedCounter::new(&topo);
    counter.increment(CPU);
    assert_eq!(counter.sum(), 1);
    counter.increment(CPU);
    counter.increment(CPU);
    assert_eq!(counter.sum(), 3);
}

#[test]
fn test_counter_add() {
    let topo = test_topology();
    let mut counter = ShardedCounter::new(&topo);
    counter.add(CPU, 10);
    assert_eq!(counter.sum(), 10);
    counter.add(CPU, 5);
    assert_eq!(counter.sum(), 15);
}

#[test]
fn test_counter_sub() {
    let topo = test_topology();
    let mut counter = ShardedCounter::new(&topo);
    counter.add(CPU, 100);
    counter.sub(CPU, 30);
    assert_eq!(counter.sum(), 70);
}

#[test]
fn test_counter_reset() {
    let topo = test_topology();
    let mut counter = ShardedCounter::new(&topo);
    counter.add(CPU, 100);
    assert_eq!(counter.sum(), 100);
    counter.reset();
    assert_eq!(counter.sum(), 0);
}

#[test]
fn test_counter_node_count() {
    let topo = test_topology();
    let mut counter = ShardedCounter::new(&topo);
    counter.add(CPU, 42);
    let node0_count = counter.node_count(NodeId::new(0));
    assert!(node0_count.is_some());
    assert_eq!(counter.node_count(NodeId::new(100)), None);
}

#[test]
fn test_counter_iter() {
    let topo = test_topology();
    let mut counter = ShardedCounter::new(&topo);
    counter.add(CPU, 10);
    let counts = counter.iter();
    assert_eq!(counts.len(), topo.node_count());
    let iter_sum: u64 = counts.iter().map(|(_, c)| c).sum();
    assert_eq!(iter_sum, counter.sum());
}

#[test]
fn test_counter_display() {
    let topo = test_topology();
    let mut counter = ShardedCounter::new(&topo);
    counter.add(CPU, 42);
    assert_eq!(counter.to_string(), "42");
}

#[test]
fn test_sharded_creation() {
    let topo = test_topology();
    let sharded = NumaSharded::new(&topo, || 42u64);
    assert_eq!(sharded.len(), topo.node_count());
    assert!(!sharded.is_empty());
}

#[test]
fn test_sharded_get() {
    let topo = test_topology();
    let sharded = NumaSharded::new(&topo, || 42u64);
    assert_eq!(sharded.get(NodeId::new(0)), Some(&42u64));
    assert_eq!(sharded.get(NodeId::new(100)), None);
}

#[test]
fn test_sharded_local() {
    let topo = test_topology();
    let sharded = NumaSharded::new(&topo, || AtomicUsize::new(0));
    sharded.local(CPU, |counter| {
        counter.fetch_add(1, Ordering::SeqCst);
    });
    let sum: usize = sharded.iter().iter().map(|(_, c)| c.load(Ordering::SeqCst)).sum();
    assert_eq!(sum, 1);
}

#[test]
fn test_sharded_iter() {
    let topo = test_topology();
    let sharded = NumaSharded::new(&topo, || 42u64);
    let items = sharded.iter();
    assert_eq!(items.len(), topo.node_count());
    for (node, &value) in items {
        assert!(node.as_u32() < topo.node_count() as u32);
        assert_eq!(value, 42);
    }
}

#[test]
fn test_sharded_iter_mut() {
    let topo = test_topology();
    let mut sharded = NumaSharded::new(&topo, || 0u64);
    for (_, value) in sharded.iter_mut() {
        *value = 100;
    }
    for (_, &value) in sharded.iter() {
        assert_eq!(value, 100);
    }
}

#[test]
fn test_sharded_with_different_init_values() {
    let topo = two_nodes();
    let counter = AtomicUsize::new(0);
    let sharded = NumaSharded::new(&topo, || counter.fetch_add(1, Ordering::SeqCst));
    let values: Vec<usize> = sharded.iter().iter().map(|(_, &v)| v).collect();
    for (i, &v) in values.iter().enumerate() {
        assert_eq!(v, i);
    }
}

#[test]
fn test_sharded_topology_access() {
    let topo = test_topology();
    let sharded = NumaSharded::new(&topo, || 0u64);
    assert_eq!(sharded.topology().node_count(), topo.node_count());
}

// ---------------------------------------------------------------------------
// Further cases
// ---------------------------------------------------------------------------

#[test]
fn local_shard_follows_the_cpu() {
    let topo = two_nodes();
    let mut counter = ShardedCounter::new(&topo);
    counter.add(5, 7);
    counter.add(1, 2);
    counter.add(-1, 1);
    counter.add(99, 1);
    assert_eq!(counter.node_count(NodeId::new(0)), Some(4));
    assert_eq!(counter.node_count(NodeId::new(1)), Some(7));
    assert_eq!(counter.sum(), 11);
    assert_eq!(counter.iter(), vec![(NodeId::new(0), 4), (NodeId::new(1), 7)]);
}

#[test]
fn counter_shards_wrap_around() {
    let topo = test_topology();
    let mut counter = ShardedCounter::new(&topo);
    counter.sub(CPU, 1);
    assert_eq!(counter.value_at(0), u64::MAX);
    counter.increment(CPU);
    assert_eq!(counter.sum(), 0);
}

#[test]
fn shards_by_node() {
    let topo = two_nodes();
    let mut sharded = NumaSharded::new(&topo, || 0u32);
    assert!(sharded.set(NodeId::new(1), 5));
    assert!(!sharded.set(NodeId::new(2), 5));
    *sharded.get_mut(NodeId::new(0)).unwrap() = 3;
    assert!(sharded.get_mut(NodeId::new(7)).is_none());
    assert_eq!(sharded.local_index(6), 1);
    assert_eq!(sharded.local(6, |v| *v), 5);
    assert_eq!(*sharded.at(0), 3);
}

fn nodes_zero_and_two() -> Arc<Topology> {
    Arc::new(Topology::from_nodes(vec![
        NumaNode::new(NodeId::new(0), CpuSet::parse("0-3").unwrap()),
        NumaNode::new(NodeId::new(2), CpuSet::parse("4-7").unwrap()),
    ]))
}

#[test]
fn shards_are_found_by_node_id() {
    let topo = nodes_zero_and_two();
    let mut sharded = NumaSharded::new(&topo, || 0u32);
    assert!(sharded.set(NodeId::new(2), 9));
    assert_eq!(sharded.get(NodeId::new(2)), Some(&9));
    assert_eq!(sharded.get(NodeId::new(1)), None);
    assert_eq!(sharded.local(5, |v| *v), 9);
    assert_eq!(sharded.local(1, |v| *v), 0);
    let ids: Vec<NodeId> = sharded.iter().iter().map(|(id, _)| *id).collect();
    assert_eq!(ids, vec![NodeId::new(0), NodeId::new(2)]);
    let mut_ids: Vec<NodeId> = sharded.iter_mut().iter().map(|(id, _)| *id).collect();
    assert_eq!(mut_ids, vec![NodeId::new(0), NodeId::new(2)]);
}

#[test]
fn counter_on_nodes_with_gaps() {
    let topo = nodes_zero_and_two();
    let mut counter = ShardedCounter::new(&topo);
    counter.add(6, 100);
    counter.sub(2, 30);
    assert_eq!(counter.node_count(NodeId::new(2)), Some(100));
    assert_eq!(counter.node_count(NodeId::new(0)), Some(0u64.wrapping_sub(30)));
    assert_eq!(counter.node_count(NodeId::new(1)), None);
    assert_eq!(counter.sum(), 70);
    assert_eq!(counter.to_string(), "70");
    assert_eq!(counter.iter(), vec![(NodeId::new(0), 0u64.wrapping_sub(30)), (NodeId::new(2), 100)]);
}

#[test]
fn many_adds_and_subs_net_out() {
    let topo = nodes_zero_and_two();
    let mut counter = ShardedCounter::new(&topo);
    counter.add(0, 5);
    counter.sub(6, 9);
    counter.add(7, 20);
    counter.sub(1, 6);
    assert_eq!(counter.sum(), 10);
    counter.reset();
    assert_eq!(counter.sum(), 0);
    assert_eq!(counter.node_count(NodeId::new(0)), Some(0));
    assert_eq!(counter.node_count(NodeId::new(2)), Some(0));
    assert_eq!(counter.num_shards(), 2);
}
