use std::sync::Arc;

use numaperf::{CpuSet, LocalityHealth, LocalityReport, LocalityStats, NodeId, NodeStats, StatsCollector, Topology};

fn test_topology() -> Arc<Topology> {
    let cpus = CpuSet::parse("0-7").unwrap();
    Arc::new(Topology::single_node(cpus))
}

/// The CPU the recording thread runs on.
const CPU: i32 = 0;

fn make_stats(local: u64, remote: u64) -> LocalityStats {
    let mut node = NodeStats::new(NodeId::new(0));
    node.local_executions = local;
    node.steals_performed = remote;
    LocalityStats::new(vec![node])
}

fn ratio_percent(stats: &LocalityStats) -> String {
    let total = stats.total_processed();
    let ratio = if total == 0 { 1.0 } else { stats.local_executions() as f64 / total as f64 };
    format!("{:.1}", ratio * 100.0)
}

#[test]
fn test_collector_creation() {
    let topo = test_topology();
    let collector = StatsCollector::new(&topo);
    assert_eq!(collector.total_local_executions(), 0);
    assert_eq!(collector.total_steals(), 0);
}

#[test]
fn test_record_local_execution() {
    let topo = test_topology();
    let mut collector = StatsCollector::new(&topo);
    collector.record_local_execution(CPU);
    collector.record_local_execution(CPU);
    let stats = collector.snapshot();
    assert_eq!(stats.local_executions(), 2);
    assert_eq!(stats.remote_steals(), 0);
}

#[test]
fn test_record_local_executions_batch() {
    let topo = test_topology();
    let mut collector = StatsCollector::new(&topo);
    collector.record_local_executions(CPU, 100);
    let stats = collector.snapshot();
    assert_eq!(stats.local_executions(), 100);
}

#[test]
fn test_record_steal() {
    let topo = test_topology();
    let mut collector = StatsCollector::new(&topo);
    collector.record_steal(CPU, NodeId::new(0));
    let stats = collector.snapshot();
    assert_eq!(stats.remote_steals(), 1);
    if let Some(node_stats) = stats.node(NodeId::new(0)) {
        assert_eq!(node_stats.tasks_stolen, 1);
    }
}

#[test]
fn test_reset() {
    let topo = test_topology();
    let mut collector = StatsCollector::new(&topo);
    collector.record_local_executions(CPU, 100);
    collector.record_steal(CPU, NodeId::new(0));
    collector.reset();
    let stats = collector.snapshot();
    assert_eq!(stats.local_executions(), 0);
    assert_eq!(stats.remote_steals(), 0);
}

#[test]
fn test_snapshot_independence() {
    let topo = test_topology();
    let mut collector = StatsCollector::new(&topo);
    collector.record_local_executions(CPU, 50);
    let stats1 = collector.snapshot();
    collector.record_local_executions(CPU, 50);
    let stats2 = collector.snapshot();
    assert_eq!(stats1.local_executions(), 50);
    assert_eq!(stats2.local_executions(), 100);
}

#[test]
fn test_health_is_acceptable() {
    assert!(LocalityHealth::Excellent.is_acceptable());
    assert!(LocalityHealth::Good.is_acceptable());
    assert!(!LocalityHealth::Fair.is_acceptable());
    assert!(!LocalityHealth::Poor.is_acceptable());
}

#[test]
fn test_report_excellent() {
    let stats = make_stats(95, 5);
    let report = LocalityReport::generate(&stats);
    assert_eq!(report.health(), LocalityHealth::Excellent);
    assert!(
        report.recommendations().iter().all(|r| !r.contains("StealPolicy")),
        "Excellent health shouldn't recommend changing steal policy"
    );
}

#[test]
fn test_report_poor() {
    let stats = make_stats(30, 70);
    let report = LocalityReport::generate(&stats);
    assert_eq!(report.health(), LocalityHealth::Poor);
    assert!(report.has_recommendations());
    assert!(
        report.recommendations().iter().any(|r| r.contains("LocalOnly")),
        "Poor health should recommend LocalOnly policy"
    );
}

#[test]
fn test_report_no_work() {
    let stats = make_stats(0, 0);
    let report = LocalityReport::generate(&stats);
    assert_eq!(report.health(), LocalityHealth::Excellent);
    assert!(report.has_recommendations());
    assert!(
        report.recommendations().iter().any(|r| r.contains("No tasks processed")),
        "Should recommend collecting more data"
    );
}

#[test]
fn test_report_display() {
    let stats = make_stats(80, 20);
    let report = LocalityReport::generate(&stats);
    let output = report.format(&ratio_percent(&stats));
    assert!(output.contains("NUMA Locality Report"));
    assert!(output.contains("GOOD"));
    assert!(output.contains("80.0%"));
}

#[test]
fn test_health_display() {
    assert_eq!(LocalityHealth::Excellent.to_str(), "EXCELLENT");
    assert_eq!(LocalityHealth::Good.to_str(), "GOOD");
    assert_eq!(LocalityHealth::Fair.to_str(), "FAIR");
    assert_eq!(LocalityHealth::Poor.to_str(), "POOR");
}

#[test]
fn test_high_steal_recommendation() {
    let mut node = NodeStats::new(NodeId::new(0));
    node.local_executions = 50;
    node.tasks_stolen = 150;
    node.steals_performed = 0;

    let stats = LocalityStats::new(vec![node]);
    let report = LocalityReport::generate(&stats);
    assert!(
        report.recommendations().iter().any(|r| r.contains("pinning")),
        "Should recommend pinning when steal ratio is high"
    );
}

#[test]
fn test_node_stats_default() {
    let stats = NodeStats::new(NodeId::new(0));
    assert_eq!(stats.node_id, NodeId::new(0));
    assert_eq!(stats.local_executions, 0);
    assert_eq!(stats.tasks_stolen, 0);
    assert_eq!(stats.steals_performed, 0);
    assert_eq!(stats.queue_depth, 0);
}

#[test]
fn test_node_stats_total_processed() {
    let mut stats = NodeStats::new(NodeId::new(0));
    stats.local_executions = 100;
    stats.steals_performed = 20;
    assert_eq!(stats.total_processed(), 120);
}

#[test]
fn test_locality_stats_multi_node() {
    let mut node0 = NodeStats::new(NodeId::new(0));
    node0.local_executions = 80;
    node0.steals_performed = 5;
    node0.tasks_stolen = 10;

    let mut node1 = NodeStats::new(NodeId::new(1));
    node1.local_executions = 70;
    node1.steals_performed = 10;
    node1.tasks_stolen = 5;

    let stats = LocalityStats::new(vec![node0, node1]);
    assert_eq!(stats.local_executions(), 150);
    assert_eq!(stats.remote_steals(), 15);
    assert_eq!(stats.tasks_stolen(), 15);
    assert_eq!(stats.total_processed(), 165);
}

#[test]
fn test_locality_stats_node_lookup() {
    let node0 = NodeStats::new(NodeId::new(0));
    let node1 = NodeStats::new(NodeId::new(1));
    let stats = LocalityStats::new(vec![node0, node1]);
    assert!(stats.node(NodeId::new(0)).is_some());
    assert!(stats.node(NodeId::new(1)).is_some());
    assert!(stats.node(NodeId::new(2)).is_none());
}

#[test]
fn test_locality_stats_display() {
    let stats = make_stats(90, 10);
    let display = stats.to_string(&ratio_percent(&stats));
    assert!(display.contains("90.0%"));
}

// ---------------------------------------------------------------------------
// Further cases
// ---------------------------------------------------------------------------

#[test]
fn health_thresholds() {
    assert_eq!(LocalityHealth::from_counts(0, 0), LocalityHealth::Excellent);
    assert_eq!(LocalityHealth::from_counts(90, 100), LocalityHealth::Excellent);
    assert_eq!(LocalityHealth::from_counts(89, 100), LocalityHealth::Good);
    assert_eq!(LocalityHealth::from_counts(70, 100), LocalityHealth::Good);
    assert_eq!(LocalityHealth::from_counts(69, 100), LocalityHealth::Fair);
    assert_eq!(LocalityHealth::from_counts(50, 100), LocalityHealth::Fair);
    assert_eq!(LocalityHealth::from_counts(49, 100), LocalityHealth::Poor);
    assert_eq!(LocalityHealth::from_counts(0, 100), LocalityHealth::Poor);
    assert_eq!(LocalityHealth::from_counts(u64::MAX, u64::MAX), LocalityHealth::Excellent);
}

#[test]
fn report_text_in_full() {
    let mut n0 = NodeStats::new(NodeId::new(0));
    n0.local_executions = 30;
    n0.steals_performed = 70;
    let n1 = NodeStats::new(NodeId::new(1));
    let stats = LocalityStats::new(vec![n0, n1]);
    let report = LocalityReport::generate(&stats);
    assert_eq!(report.health(), LocalityHealth::Poor);
    let text = report.format("30.0");
    assert_eq!(
        text,
        "=== NUMA Locality Report ===\n\nHealth: POOR - Poor locality (<50% local)\n\nStatistics:\n  Total processed: 100\n  Local executions: 30\n  Remote steals: 70\n  Locality ratio: 30.0%\n\nPer-node breakdown:\n  node0: local=30, stolen_from=0, steals=70, queue=0\n  node1: local=0, stolen_from=0, steals=0, queue=0\n\nRecommendations:\n  1. Consider using StealPolicy::LocalOnly to prevent cross-node stealing\n  2. Review work submission patterns - tasks should be submitted to their data's home node\n"
    );
}

#[test]
fn queue_imbalance_recommendations() {
    let mut n0 = NodeStats::new(NodeId::new(0));
    n0.local_executions = 10;
    n0.queue_depth = 200;
    let mut n1 = NodeStats::new(NodeId::new(1));
    n1.queue_depth = 0;
    let report = LocalityReport::generate(&LocalityStats::new(vec![n0, n1]));
    assert!(report.recommendations().iter().any(|r| r.starts_with("Some nodes have empty queues")));

    let mut m0 = NodeStats::new(NodeId::new(0));
    m0.local_executions = 10;
    m0.queue_depth = 5;
    let mut m1 = NodeStats::new(NodeId::new(1));
    m1.queue_depth = 500;
    let report = LocalityReport::generate(&LocalityStats::new(vec![m0, m1]));
    assert!(report
        .recommendations()
        .iter()
        .any(|r| r == "Queue imbalance detected: min=5, max=500. Consider rebalancing work submission."));
}

#[test]
fn stats_summary_text() {
    let stats = make_stats(90, 10);
    assert_eq!(
        stats.summary("90.0"),
        "Locality Stats (1 nodes)\n  Total processed: 100\n  Local executions: 90\n  Remote steals: 10\n  Locality ratio: 90.0%\n  Queue depth: 0\n\nPer-node breakdown:\n  node0: local=90, stolen_from=0, steals=10, queue=0\n"
    );
}

#[test]
fn steals_from_unknown_node_count_only_for_the_stealer() {
    let topo = test_topology();
    let mut collector = StatsCollector::new(&topo);
    collector.record_steals(CPU, NodeId::new(9), 3);
    let stats = collector.snapshot();
    assert_eq!(stats.remote_steals(), 3);
    assert_eq!(stats.tasks_stolen(), 0);
    assert_eq!(collector.total_steals(), 3);
}

#[test]
fn steals_keep_stolen_and_performed_in_step() {
    let topo = Arc::new(Topology::from_nodes(vec![
        numaperf::NumaNode::new(NodeId::new(0), CpuSet::parse("0-1").unwrap()),
        numaperf::NumaNode::new(NodeId::new(1), CpuSet::parse("2-3").unwrap()),
    ]));
    let mut collector = StatsCollector::new(&topo);
    collector.record_steal(2, NodeId::new(0));
    collector.record_steals(0, NodeId::new(1), 4);
    let stats = collector.snapshot();
    assert_eq!(stats.tasks_stolen(), stats.remote_steals());
    assert_eq!(stats.node(NodeId::new(1)).unwrap().steals_performed, 1);
    assert_eq!(stats.node(NodeId::new(0)).unwrap().steals_performed, 4);
    assert_eq!(stats.node(NodeId::new(1)).unwrap().tasks_stolen, 4);
}

fn locality_ratio(stats: &LocalityStats) -> f64 {
    let total = stats.total_processed();
    if total == 0 {
        1.0
    } else {
        stats.local_executions() as f64 / total as f64
    }
}

#[test]
fn test_locality_stats_empty() {
    let stats = LocalityStats::new(vec![]);
    assert_eq!(stats.node_count(), 0);
    assert_eq!(stats.local_executions(), 0);
    assert_eq!(stats.remote_steals(), 0);
    assert_eq!(locality_ratio(&stats), 1.0);
}

#[test]
fn test_locality_stats_single_node() {
    let mut node = NodeStats::new(NodeId::new(0));
    node.local_executions = 90;
    node.steals_performed = 10;
    let stats = LocalityStats::new(vec![node]);
    assert_eq!(stats.local_executions(), 90);
    assert_eq!(stats.remote_steals(), 10);
    assert_eq!(stats.total_processed(), 100);
    assert!((locality_ratio(&stats) - 0.9).abs() < 0.001);
}

#[test]
fn snapshot_labels_nodes_by_their_ids() {
    let topo = Arc::new(Topology::from_nodes(vec![
        numaperf::NumaNode::new(NodeId::new(0), CpuSet::parse("0-1").unwrap()),
        numaperf::NumaNode::new(NodeId::new(2), CpuSet::parse("2-3").unwrap()),
    ]));
    let mut collector = StatsCollector::new(&topo);
    collector.record_local_executions(3, 5);
    collector.record_steal(0, NodeId::new(2));
    let stats = collector.snapshot();
    let ids: Vec<NodeId> = stats.node_stats().iter().map(|n| n.node_id).collect();
    assert_eq!(ids, vec![NodeId::new(0), NodeId::new(2)]);
    assert_eq!(stats.node_stats()[1].local_executions, 5);
    assert_eq!(stats.node_stats()[1].tasks_stolen, 1);
    assert_eq!(stats.node_stats()[0].steals_performed, 1);
}

#[test]
fn stats_are_found_by_node_id() {
    let stats = LocalityStats::new(vec![NodeStats::new(NodeId::new(0)), NodeStats::new(NodeId::new(2))]);
    assert_eq!(stats.node(NodeId::new(2)).unwrap().node_id, NodeId::new(2));
    assert!(stats.node(NodeId::new(1)).is_none());
}
