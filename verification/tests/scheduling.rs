use std::sync::atomic::{AtomicBool, AtomicUsize, Ordering};
use std::sync::Arc;

use numaperf::sched::{next_step, pending_tasks, steal_in_order, submit_target, NodeQueue, Task, WorkerStep};
use numaperf::{CpuSet, HardMode, NodeId, NumaExecutorBuilder, NumaNode, StealPolicy, Topology};

fn make_test_topology() -> Topology {
    let cpus = CpuSet::parse("0-7").unwrap();
    Topology::single_node(cpus)
}

/// Three nodes; node 0 is nearer to node 2 than to node 1.
fn three_nodes() -> Topology {
    Topology::from_nodes(vec![
        NumaNode::new(NodeId::new(0), CpuSet::parse("0-1").unwrap()).with_distances(vec![10, 30, 20]),
        NumaNode::new(NodeId::new(1), CpuSet::parse("2-3").unwrap()).with_distances(vec![30, 10, 20]),
        NumaNode::new(NodeId::new(2), CpuSet::parse("4-5").unwrap()).with_distances(vec![20, 20, 10]),
    ])
}

type Job = Box<dyn FnOnce() + Send>;

fn counting_job(counter: &Arc<AtomicUsize>, n: usize) -> Task<Job> {
    let c = Arc::clone(counter);
    Task::new(Box::new(move || {
        c.fetch_add(n, Ordering::SeqCst);
    }))
}

#[test]
fn test_push_pop() {
    let mut queue: NodeQueue<Task<Job>> = NodeQueue::new();
    assert!(queue.is_empty());
    let counter = Arc::new(AtomicUsize::new(0));
    for i in 1..=3 {
        queue.push(counting_job(&counter, i));
    }
    assert_eq!(queue.len(), 3);

    queue.pop().unwrap().run();
    assert_eq!(counter.load(Ordering::SeqCst), 3);
    queue.pop().unwrap().run();
    assert_eq!(counter.load(Ordering::SeqCst), 5);
    queue.pop().unwrap().run();
    assert_eq!(counter.load(Ordering::SeqCst), 6);

    assert!(queue.is_empty());
    assert!(queue.pop().is_none());
}

#[test]
fn test_steal() {
    let mut queue: NodeQueue<Task<Job>> = NodeQueue::new();
    let counter = Arc::new(AtomicUsize::new(0));
    for i in 1..=3 {
        queue.push(counting_job(&counter, i));
    }

    queue.steal().unwrap().run();
    assert_eq!(counter.load(Ordering::SeqCst), 1);
    queue.steal().unwrap().run();
    assert_eq!(counter.load(Ordering::SeqCst), 3);
    queue.steal().unwrap().run();
    assert_eq!(counter.load(Ordering::SeqCst), 6);

    assert!(queue.is_empty());
}

#[test]
fn test_local_only_returns_empty() {
    let topo = make_test_topology();
    let first_node = topo.numa_nodes()[0].id();
    let order = StealPolicy::LocalOnly.steal_order(first_node, &topo);
    assert!(order.is_empty());
}

#[test]
fn test_any_excludes_self() {
    let topo = make_test_topology();
    let first_node = topo.numa_nodes()[0].id();
    let order = StealPolicy::Any.steal_order(first_node, &topo);
    assert!(!order.contains(&first_node));
    assert_eq!(order.len(), topo.node_count() - 1);
}

#[test]
fn test_default_is_local_then_socket() {
    assert_eq!(StealPolicy::default(), StealPolicy::LocalThenSocketThenRemote);
}

#[test]
fn test_allows_stealing() {
    assert!(!StealPolicy::LocalOnly.allows_stealing());
    assert!(StealPolicy::LocalThenSocketThenRemote.allows_stealing());
    assert!(StealPolicy::Any.allows_stealing());
}

#[test]
fn steal_test_display() {
    assert_eq!(StealPolicy::LocalOnly.to_str(), "local-only");
    assert_eq!(StealPolicy::LocalThenSocketThenRemote.to_str(), "local-then-socket-then-remote");
    assert_eq!(StealPolicy::Any.to_str(), "any");
}

#[test]
fn test_task_runs() {
    let executed = Arc::new(AtomicBool::new(false));
    let executed_clone = Arc::clone(&executed);
    let task = Task::new(move || {
        executed_clone.store(true, Ordering::SeqCst);
    });
    assert!(!executed.load(Ordering::SeqCst));
    task.run();
    assert!(executed.load(Ordering::SeqCst));
}

#[test]
fn test_task_with_home_node() {
    let task = Task::with_home_node(|| {}, NodeId::new(2));
    assert_eq!(task.home_node(), Some(NodeId::new(2)));
}

#[test]
fn test_task_without_home_node() {
    let task = Task::new(|| {});
    assert_eq!(task.home_node(), None);
}

// ---------------------------------------------------------------------------
// Further cases
// ---------------------------------------------------------------------------

#[test]
fn steal_order_goes_nearest_first() {
    let topo = three_nodes();
    let order = StealPolicy::LocalThenSocketThenRemote.steal_order(NodeId::new(0), &topo);
    assert_eq!(order, vec![NodeId::new(2), NodeId::new(1)]);
    let any = StealPolicy::Any.steal_order(NodeId::new(0), &topo);
    assert_eq!(any, vec![NodeId::new(1), NodeId::new(2)]);
    // Equal distances keep topology order.
    let from2 = StealPolicy::LocalThenSocketThenRemote.steal_order(NodeId::new(2), &topo);
    assert_eq!(from2, vec![NodeId::new(0), NodeId::new(1)]);
}

#[test]
fn worker_runs_local_then_steals_then_parks() {
    let topo = three_nodes();
    let mut queues: Vec<NodeQueue<u32>> = vec![NodeQueue::new(), NodeQueue::new(), NodeQueue::new()];
    queues[1].push(10);
    queues[1].push(11);
    queues[2].push(20);
    queues[0].push(1);

    let policy = StealPolicy::LocalThenSocketThenRemote;
    assert!(matches!(next_step(NodeId::new(0), false, policy, &topo, &mut queues), WorkerStep::Run { task: 1, stolen_from: None }));
    // Node 2 is nearer to node 0 than node 1.
    match next_step(NodeId::new(0), false, policy, &topo, &mut queues) {
        WorkerStep::Run { task, stolen_from } => {
            assert_eq!(task, 20);
            assert_eq!(stolen_from, Some(NodeId::new(2)));
        }
        _ => panic!("expected a steal"),
    }
    // Stealers take the oldest task.
    assert!(matches!(next_step(NodeId::new(0), false, policy, &topo, &mut queues), WorkerStep::Run { task: 10, .. }));
    assert!(matches!(next_step(NodeId::new(0), false, StealPolicy::LocalOnly, &topo, &mut queues), WorkerStep::Park));
    assert!(matches!(next_step(NodeId::new(0), true, policy, &topo, &mut queues), WorkerStep::Exit));
    assert_eq!(pending_tasks(&queues), 1);
    assert!(matches!(next_step(NodeId::new(0), false, policy, &topo, &mut queues), WorkerStep::Run { task: 11, .. }));
    assert!(matches!(next_step(NodeId::new(0), false, policy, &topo, &mut queues), WorkerStep::Park));
}

#[test]
fn shutdown_drains_local_work_first() {
    let topo = make_test_topology();
    let mut queues: Vec<NodeQueue<u32>> = vec![NodeQueue::new()];
    queues[0].push(7);
    assert!(matches!(next_step(NodeId::new(0), true, StealPolicy::Any, &topo, &mut queues), WorkerStep::Run { task: 7, .. }));
    assert!(matches!(next_step(NodeId::new(0), true, StealPolicy::Any, &topo, &mut queues), WorkerStep::Exit));
}

#[test]
fn steal_in_order_skips_empty_queues() {
    let mut queues: Vec<NodeQueue<u32>> = vec![NodeQueue::new(), NodeQueue::new()];
    queues[1].push(5);
    let order = vec![NodeId::new(0), NodeId::new(1)];
    assert_eq!(steal_in_order(&order, &mut queues), Some(5));
    assert_eq!(steal_in_order(&order, &mut queues), None);
}

#[test]
fn submissions_fall_back_to_queue_zero() {
    assert_eq!(submit_target(NodeId::new(1), 2), 1);
    assert_eq!(submit_target(NodeId::new(5), 2), 0);
}

#[test]
fn builder_settings_and_worker_plan() {
    let topo = Arc::new(three_nodes());
    let b = NumaExecutorBuilder::new(Arc::clone(&topo));
    assert_eq!(b.settings(), (StealPolicy::LocalThenSocketThenRemote, None, HardMode::Soft));
    assert_eq!(b.worker_plan(), vec![(NodeId::new(0), 2), (NodeId::new(1), 2), (NodeId::new(2), 2)]);
    let b = b.steal_policy(StealPolicy::LocalOnly).workers_per_node(3).hard_mode(HardMode::Strict);
    assert_eq!(b.settings(), (StealPolicy::LocalOnly, Some(3), HardMode::Strict));
    assert_eq!(b.worker_plan()[1], (NodeId::new(1), 3));
    assert_eq!(b.topology().node_count(), 3);
}

#[test]
fn empty_node_gets_one_worker() {
    let topo = Arc::new(Topology::from_nodes(vec![NumaNode::new(NodeId::new(0), CpuSet::new())]));
    let b = NumaExecutorBuilder::new(topo);
    assert_eq!(b.worker_plan(), vec![(NodeId::new(0), 1)]);
}
