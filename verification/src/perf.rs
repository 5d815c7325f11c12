//! Locality observability: per-node statistics, their collection, and
//! diagnostic reports with recommendations.
use vstd::prelude::*;

use std::sync::Arc;

use crate::sharded::{id_position, lemma_id_position, lemma_local_index_bound, local_index, node_ids, total, NumaSharded, ShardedCounter};
use crate::text::{dec, push_decimal, push_str};
use crate::topo::{node_name, push_node_name, Topology};
use crate::types::NodeId;

verus! {

/// `std::time::Instant`, carried through as an opaque value.
#[verifier::external_type_specification]
#[verifier::external_body]
pub struct ExInstant(std::time::Instant);

/// The current time (`std::time::Instant::now`). Nothing is claimed of the
/// result: it depends on the clock.
#[verifier::external_body]
fn instant_now() -> std::time::Instant {
    std::time::Instant::now()
}

/// A copy of an instant (`Instant` is `Copy`): the contract claims the copy
/// equals `*t`.
#[verifier::external_body]
fn copy_instant(t: &std::time::Instant) -> (r: std::time::Instant)
    ensures
        r == *t,
{
    *t
}

/// Statistics for a single NUMA node.
#[derive(Debug, Clone, Copy, PartialEq, Eq, Structural)]
pub struct NodeStats {
    /// The node ID.
    pub node_id: NodeId,
    /// Tasks executed locally (from own queue).
    pub local_executions: u64,
    /// Tasks stolen from this node by others.
    pub tasks_stolen: u64,
    /// Tasks this node stole from others.
    pub steals_performed: u64,
    /// Current queue depth (approximate).
    pub queue_depth: usize,
}

impl Default for NodeStats {
    fn default() -> (r: Self)
        ensures
            r == (NodeStats {
                node_id: NodeId(0),
                local_executions: 0,
                tasks_stolen: 0,
                steals_performed: 0,
                queue_depth: 0,
            }),
    {
        NodeStats { node_id: NodeId(0), local_executions: 0, tasks_stolen: 0, steals_performed: 0, queue_depth: 0 }
    }
}

impl NodeStats {
    /// Create new node stats with all counts at zero.
    pub fn new(node_id: NodeId) -> (r: Self)
        ensures
            r == (NodeStats { node_id, local_executions: 0, tasks_stolen: 0, steals_performed: 0, queue_depth: 0 }),
    {
        NodeStats { node_id, local_executions: 0, tasks_stolen: 0, steals_performed: 0, queue_depth: 0 }
    }

    /// Total tasks processed by this node (local + stolen from others).
    pub fn total_processed(&self) -> (r: u64)
        requires
            self.local_executions + self.steals_performed <= u64::MAX,
        ensures
            r == self.local_executions + self.steals_performed,
    {
        self.local_executions + self.steals_performed
    }

    /// The display text: "node0: local=.., stolen_from=.., steals=.., queue=..".
    pub fn to_string(&self) -> (r: String)
        ensures
            r@ == node_stats_text(*self),
    {
        let mut s = String::new();
        push_node_name(&mut s, self.node_id);
        push_str(&mut s, ": local=");
        push_decimal(&mut s, self.local_executions);
        push_str(&mut s, ", stolen_from=");
        push_decimal(&mut s, self.tasks_stolen);
        push_str(&mut s, ", steals=");
        push_decimal(&mut s, self.steals_performed);
        push_str(&mut s, ", queue=");
        push_decimal(&mut s, self.queue_depth as u64);
        assert(s@ =~= node_stats_text(*self));
        s
    }
}

/// The display text of node statistics.
pub open spec fn node_stats_text(n: NodeStats) -> Seq<char> {
    node_name(n.node_id) + ": local="@ + dec(n.local_executions as nat) + ", stolen_from="@ + dec(
        n.tasks_stolen as nat,
    ) + ", steals="@ + dec(n.steals_performed as nat) + ", queue="@ + dec(n.queue_depth as nat)
}

/// The sum of the local executions of the nodes.
pub open spec fn sum_local(s: Seq<NodeStats>) -> nat
    decreases s.len(),
{
    if s.len() == 0 {
        0
    } else {
        sum_local(s.drop_last()) + s.last().local_executions as nat
    }
}

/// The sum of the steals performed by the nodes.
pub open spec fn sum_steals(s: Seq<NodeStats>) -> nat
    decreases s.len(),
{
    if s.len() == 0 {
        0
    } else {
        sum_steals(s.drop_last()) + s.last().steals_performed as nat
    }
}

/// The sum of the tasks stolen from the nodes.
pub open spec fn sum_stolen(s: Seq<NodeStats>) -> nat
    decreases s.len(),
{
    if s.len() == 0 {
        0
    } else {
        sum_stolen(s.drop_last()) + s.last().tasks_stolen as nat
    }
}

/// The sum of the queue depths of the nodes.
pub open spec fn sum_depth(s: Seq<NodeStats>) -> nat
    decreases s.len(),
{
    if s.len() == 0 {
        0
    } else {
        sum_depth(s.drop_last()) + s.last().queue_depth as nat
    }
}

/// Which per-node count a sum adds up.
pub enum StatField {
    Local,
    Steals,
    Stolen,
    Depth,
}

/// The value of a per-node count.
pub open spec fn field_of(n: NodeStats, f: StatField) -> nat {
    match f {
        StatField::Local => n.local_executions as nat,
        StatField::Steals => n.steals_performed as nat,
        StatField::Stolen => n.tasks_stolen as nat,
        StatField::Depth => n.queue_depth as nat,
    }
}

/// The sum of a per-node count.
pub open spec fn sum_field(s: Seq<NodeStats>, f: StatField) -> nat
    decreases s.len(),
{
    if s.len() == 0 {
        0
    } else {
        sum_field(s.drop_last(), f) + field_of(s.last(), f)
    }
}

pub proof fn lemma_sum_field(s: Seq<NodeStats>)
    ensures
        sum_field(s, StatField::Local) == sum_local(s),
        sum_field(s, StatField::Steals) == sum_steals(s),
        sum_field(s, StatField::Stolen) == sum_stolen(s),
        sum_field(s, StatField::Depth) == sum_depth(s),
    decreases s.len(),
{
    if s.len() > 0 {
        lemma_sum_field(s.drop_last());
    }
}

pub proof fn lemma_sum_prefix(s: Seq<NodeStats>, i: int, f: StatField)
    requires
        0 <= i <= s.len(),
    ensures
        sum_field(s.take(i), f) <= sum_field(s, f),
    decreases s.len() - i,
{
    if i < s.len() {
        lemma_sum_prefix(s, i + 1, f);
        assert(s.take(i + 1).drop_last() =~= s.take(i));
    } else {
        assert(s.take(i) =~= s);
    }
}

/// The sum of one count over all nodes.
fn sum_of(s: &Vec<NodeStats>, f: StatField) -> (r: u64)
    requires
        sum_field(s@, f) <= u64::MAX,
    ensures
        r == sum_field(s@, f),
{
    let mut acc: u64 = 0;
    let mut i: usize = 0;
    while i < s.len()
        invariant
            i <= s@.len(),
            sum_field(s@, f) <= u64::MAX,
            acc == sum_field(s@.take(i as int), f),
        decreases s@.len() - i,
    {
        proof {
            assert(s@.take(i + 1).drop_last() =~= s@.take(i as int));
            lemma_sum_prefix(s@, i as int + 1, f);
        }
        let n = &s[i];
        let v: u64 = match f {
            StatField::Local => n.local_executions,
            StatField::Steals => n.steals_performed,
            StatField::Stolen => n.tasks_stolen,
            StatField::Depth => n.queue_depth as u64,
        };
        acc = acc + v;
        i = i + 1;
    }
    assert(s@.take(s@.len() as int) =~= s@);
    acc
}

/// The node IDs of per-node statistics, in order.
pub open spec fn stats_ids(s: Seq<NodeStats>) -> Seq<NodeId> {
    s.map_values(|n: NodeStats| n.node_id)
}

/// A point-in-time snapshot of locality-related metrics, one entry per node,
/// found by the node's ID.
#[derive(Debug)]
pub struct LocalityStats {
    node_stats: Vec<NodeStats>,
    timestamp: std::time::Instant,
}

impl View for LocalityStats {
    type V = Seq<NodeStats>;

    closed spec fn view(&self) -> Seq<NodeStats> {
        self.node_stats@
    }
}

impl LocalityStats {
    /// Create a snapshot from per-node data, stamped with the current time.
    pub fn new(node_stats: Vec<NodeStats>) -> (r: Self)
        ensures
            r@ == node_stats@,
    {
        LocalityStats { node_stats, timestamp: instant_now() }
    }

    /// Get per-node statistics.
    pub fn node_stats(&self) -> (r: &[NodeStats])
        ensures
            r@ == self@,
    {
        self.node_stats.as_slice()
    }

    /// Get the stats of a specific node: the first entry for that node ID.
    pub fn node(&self, node: NodeId) -> (r: Option<&NodeStats>)
        ensures
            r is Some <==> stats_ids(self@).contains(node),
            match r {
                Some(n) => *n == self@[id_position(stats_ids(self@), node)],
                None => true,
            },
    {
        let ghost ids = stats_ids(self@);
        proof {
            lemma_id_position(ids, node);
        }
        let mut i: usize = 0;
        assert(ids.skip(0) =~= ids);
        while i < self.node_stats.len()
            invariant
                i <= ids.len(),
                ids == stats_ids(self@),
                ids.len() == self.node_stats@.len(),
                id_position(ids, node) == if id_position(ids.skip(i as int), node) < 0 {
                    -1
                } else {
                    id_position(ids.skip(i as int), node) + i
                },
            decreases self.node_stats@.len() - i,
        {
            assert(ids.skip(i as int)[0] == ids[i as int]);
            assert(ids.skip(i as int).drop_first() =~= ids.skip(i + 1));
            if self.node_stats[i].node_id == node {
                return Some(&self.node_stats[i]);
            }
            i = i + 1;
        }
        assert(ids.skip(ids.len() as int) =~= Seq::<NodeId>::empty());
        None
    }

    /// Get the number of nodes.
    pub fn node_count(&self) -> (r: usize)
        ensures
            r == self@.len(),
    {
        self.node_stats.len()
    }

    /// Total local tasks executed across all nodes.
    pub fn local_executions(&self) -> (r: u64)
        requires
            sum_local(self@) <= u64::MAX,
        ensures
            r == sum_local(self@),
    {
        proof {
            lemma_sum_field(self@);
        }
        sum_of(&self.node_stats, StatField::Local)
    }

    /// Total remote steals performed across all nodes.
    pub fn remote_steals(&self) -> (r: u64)
        requires
            sum_steals(self@) <= u64::MAX,
        ensures
            r == sum_steals(self@),
    {
        proof {
            lemma_sum_field(self@);
        }
        sum_of(&self.node_stats, StatField::Steals)
    }

    /// Total tasks stolen from nodes.
    pub fn tasks_stolen(&self) -> (r: u64)
        requires
            sum_stolen(self@) <= u64::MAX,
        ensures
            r == sum_stolen(self@),
    {
        proof {
            lemma_sum_field(self@);
        }
        sum_of(&self.node_stats, StatField::Stolen)
    }

    /// Total tasks processed across all nodes (local executions plus steals).
    pub fn total_processed(&self) -> (r: u64)
        requires
            sum_local(self@) + sum_steals(self@) <= u64::MAX,
        ensures
            r == sum_local(self@) + sum_steals(self@),
    {
        self.local_executions() + self.remote_steals()
    }

    /// Total queue depth across all nodes.
    pub fn total_queue_depth(&self) -> (r: usize)
        requires
            sum_depth(self@) <= usize::MAX,
        ensures
            r == sum_depth(self@),
    {
        proof {
            lemma_sum_field(self@);
        }
        sum_of(&self.node_stats, StatField::Depth) as usize
    }

    /// When the snapshot was taken.
    pub closed spec fn stamp(&self) -> std::time::Instant {
        self.timestamp
    }

    /// Get the timestamp when this snapshot was taken.
    pub fn timestamp(&self) -> (r: std::time::Instant)
        ensures
            r == self.stamp(),
    {
        copy_instant(&self.timestamp)
    }
}

/// Health classification based on the share of local executions.
#[derive(Debug, Clone, Copy, PartialEq, Eq, Structural, Hash)]
pub enum LocalityHealth {
    /// At least 90% local execution rate.
    Excellent,
    /// 70-90% local execution rate.
    Good,
    /// 50-70% local execution rate.
    Fair,
    /// Below 50% local execution rate.
    Poor,
}

impl Default for LocalityHealth {
    fn default() -> (r: Self)
        ensures
            r == LocalityHealth::Excellent,
    {
        LocalityHealth::Excellent
    }
}

impl LocalityHealth {
    /// Get a description of this health level.
    pub fn description(&self) -> (r: &'static str)
        ensures
            r@ == health_description(*self),
    {
        match self {
            LocalityHealth::Excellent => "Excellent locality (>90% local)",
            LocalityHealth::Good => "Good locality (70-90% local)",
            LocalityHealth::Fair => "Fair locality (50-70% local)",
            LocalityHealth::Poor => "Poor locality (<50% local)",
        }
    }

    /// Classify the share `local / total` of local executions: at least
    /// 90% is excellent, at least 70% good, at least 50% fair, below that
    /// poor. No work at all (`total == 0`) counts as perfect locality.
    pub fn from_counts(local: u64, total: u64) -> (r: Self)
        ensures
            r == health_of(local as nat, total as nat),
    {
        let l = local as u128;
        let t = total as u128;
        if t == 0 || l * 10 >= t * 9 {
            LocalityHealth::Excellent
        } else if l * 10 >= t * 7 {
            LocalityHealth::Good
        } else if l * 2 >= t {
            LocalityHealth::Fair
        } else {
            LocalityHealth::Poor
        }
    }

    /// Check if this health level is acceptable (excellent or good).
    pub fn is_acceptable(&self) -> (r: bool)
        ensures
            r == (*self == LocalityHealth::Excellent || *self == LocalityHealth::Good),
    {
        matches!(self, LocalityHealth::Excellent | LocalityHealth::Good)
    }

    /// The display text: "EXCELLENT", "GOOD", "FAIR" or "POOR".
    pub fn to_str(&self) -> (r: &'static str)
        ensures
            r@ == health_label(*self),
    {
        match self {
            LocalityHealth::Excellent => "EXCELLENT",
            LocalityHealth::Good => "GOOD",
            LocalityHealth::Fair => "FAIR",
            LocalityHealth::Poor => "POOR",
        }
    }
}

/// The display text of a health level.
pub open spec fn health_label(h: LocalityHealth) -> Seq<char> {
    match h {
        LocalityHealth::Excellent => "EXCELLENT"@,
        LocalityHealth::Good => "GOOD"@,
        LocalityHealth::Fair => "FAIR"@,
        LocalityHealth::Poor => "POOR"@,
    }
}

/// The description of a health level.
pub open spec fn health_description(h: LocalityHealth) -> Seq<char> {
    match h {
        LocalityHealth::Excellent => "Excellent locality (>90% local)"@,
        LocalityHealth::Good => "Good locality (70-90% local)"@,
        LocalityHealth::Fair => "Fair locality (50-70% local)"@,
        LocalityHealth::Poor => "Poor locality (<50% local)"@,
    }
}

/// The health level of `local` local executions out of `total`.
pub open spec fn health_of(local: nat, total: nat) -> LocalityHealth {
    if total == 0 || local * 10 >= total * 9 {
        LocalityHealth::Excellent
    } else if local * 10 >= total * 7 {
        LocalityHealth::Good
    } else if local * 2 >= total {
        LocalityHealth::Fair
    } else {
        LocalityHealth::Poor
    }
}

/// The smallest queue depth of the nodes (0 for no nodes).
pub open spec fn min_depth(s: Seq<NodeStats>) -> nat
    decreases s.len(),
{
    if s.len() == 0 {
        0
    } else if s.len() == 1 {
        s[0].queue_depth as nat
    } else {
        let m = min_depth(s.drop_last());
        if (s.last().queue_depth as nat) < m {
            s.last().queue_depth as nat
        } else {
            m
        }
    }
}

/// The largest queue depth of the nodes (0 for no nodes).
pub open spec fn max_depth(s: Seq<NodeStats>) -> nat
    decreases s.len(),
{
    if s.len() == 0 {
        0
    } else {
        let m = max_depth(s.drop_last());
        if (s.last().queue_depth as nat) > m {
            s.last().queue_depth as nat
        } else {
            m
        }
    }
}

/// The advice given for a health level.
pub open spec fn health_advice(health: LocalityHealth) -> Seq<Seq<char>> {
    match health {
        LocalityHealth::Poor => seq![
            "Consider using StealPolicy::LocalOnly to prevent cross-node stealing"@,
            "Review work submission patterns - tasks should be submitted to their data's home node"@,
        ],
        LocalityHealth::Fair => seq!["Consider using StealPolicy::LocalThenSocketThenRemote for better locality"@],
        _ => Seq::empty(),
    }
}

/// The advice given for uneven queue depths: when some node's queue is
/// empty while another's is not (with several nodes), or when the deepest
/// queue is over 100 and over ten times the shallowest.
pub open spec fn queue_advice(s: Seq<NodeStats>) -> Seq<Seq<char>> {
    if s.len() == 0 {
        Seq::empty()
    } else {
        let lo = min_depth(s);
        let hi = max_depth(s);
        if hi > 0 && lo == 0 && s.len() > 1 {
            seq!["Some nodes have empty queues while others are busy. Distribute work more evenly."@]
        } else if hi > lo * 10 && hi > 100 {
            seq![
                "Queue imbalance detected: min="@ + dec(lo) + ", max="@ + dec(hi)
                    + ". Consider rebalancing work submission."@,
            ]
        } else {
            Seq::empty()
        }
    }
}

/// The advice for one node whose work is mostly stolen: over 100 tasks
/// (local plus stolen) and more stolen than local.
pub open spec fn steal_advice(n: NodeStats) -> Seq<Seq<char>> {
    if n.local_executions + n.tasks_stolen > 100 && n.tasks_stolen > n.local_executions {
        seq![
            node_name(n.node_id) + " has more stolen tasks ("@ + dec(n.tasks_stolen as nat)
                + ") than local executions ("@ + dec(n.local_executions as nat)
                + "). Consider pinning related work to this node."@,
        ]
    } else {
        Seq::empty()
    }
}

/// The per-node stealing advice, in node order.
pub open spec fn steal_advices(s: Seq<NodeStats>) -> Seq<Seq<char>>
    decreases s.len(),
{
    if s.len() == 0 {
        Seq::empty()
    } else {
        steal_advices(s.drop_last()) + steal_advice(s.last())
    }
}

/// All recommendations of a report, in order: health advice, queue advice,
/// per-node stealing advice, then a note when no task was processed.
pub open spec fn recommendations_for(s: Seq<NodeStats>, health: LocalityHealth) -> Seq<Seq<char>> {
    health_advice(health) + queue_advice(s) + steal_advices(s) + if sum_local(s) + sum_steals(s) == 0 {
        seq!["No tasks processed yet. Collect more data before drawing conclusions."@]
    } else {
        Seq::empty()
    }
}

/// Whether the counts of the statistics can be summed without overflow.
pub open spec fn counts_fit(s: Seq<NodeStats>) -> bool {
    &&& sum_local(s) + sum_steals(s) <= u64::MAX
    &&& min_depth(s) * 10 <= usize::MAX
    &&& forall|i: int| 0 <= i < s.len() ==> (#[trigger] s[i]).local_executions + s[i].tasks_stolen <= u64::MAX
}

/// A diagnostic report summarizing locality health.
#[derive(Debug)]
pub struct LocalityReport {
    stats: LocalityStats,
    health: LocalityHealth,
    recommendations: Vec<String>,
}

impl LocalityReport {
    /// The statistics the report is about.
    pub closed spec fn stats_view(&self) -> Seq<NodeStats> {
        self.stats@
    }

    /// The overall health of the report.
    pub closed spec fn health_view(&self) -> LocalityHealth {
        self.health
    }

    /// The recommendations of the report.
    pub closed spec fn recommendations_view(&self) -> Seq<Seq<char>> {
        self.recommendations.deep_view()
    }

    /// Generate a report from statistics: the health is the classification
    /// of their share of local executions.
    pub fn generate(stats: &LocalityStats) -> (r: Self)
        requires
            counts_fit(stats@),
        ensures
            r.stats_view() == stats@,
            r.health_view() == health_of(sum_local(stats@), sum_local(stats@) + sum_steals(stats@)),
            r.recommendations_view() == recommendations_for(stats@, r.health_view()),
    {
        let health = LocalityHealth::from_counts(stats.local_executions(), stats.total_processed());
        LocalityReport::with_health(stats, health)
    }

    /// Generate a report from statistics, given the health their locality
    /// ratio classifies as.
    pub fn with_health(stats: &LocalityStats, health: LocalityHealth) -> (r: Self)
        requires
            counts_fit(stats@),
        ensures
            r.stats_view() == stats@,
            r.health_view() == health,
            r.recommendations_view() == recommendations_for(stats@, health),
    {
        let mut recs: Vec<String> = Vec::new();
        match health {
            LocalityHealth::Poor => {
                recs.push(crate::text::owned("Consider using StealPolicy::LocalOnly to prevent cross-node stealing"));
                recs.push(
                    crate::text::owned(
                        "Review work submission patterns - tasks should be submitted to their data's home node",
                    ),
                );
            },
            LocalityHealth::Fair => {
                recs.push(
                    crate::text::owned("Consider using StealPolicy::LocalThenSocketThenRemote for better locality"),
                );
            },
            _ => {},
        }
        assert(recs.deep_view() =~= health_advice(health));
        let ghost after_health = recs.deep_view();
        let ns = stats.node_stats();
        if ns.len() > 0 {
            let (lo, hi) = depth_bounds(ns);
            if hi > 0 && lo == 0 && ns.len() > 1 {
                recs.push(
                    crate::text::owned(
                        "Some nodes have empty queues while others are busy. Distribute work more evenly.",
                    ),
                );
            } else if hi > lo * 10 && hi > 100 {
                let mut m = String::new();
                push_str(&mut m, "Queue imbalance detected: min=");
                push_decimal(&mut m, lo as u64);
                push_str(&mut m, ", max=");
                push_decimal(&mut m, hi as u64);
                push_str(&mut m, ". Consider rebalancing work submission.");
                recs.push(m);
            }
        }
        assert(recs.deep_view() =~= after_health + queue_advice(stats@));
        let ghost after_queue = recs.deep_view();
        let mut i: usize = 0;
        assert(stats@.take(0) =~= Seq::<NodeStats>::empty());
        while i < ns.len()
            invariant
                ns@ == stats@,
                counts_fit(stats@),
                i <= ns@.len(),
                recs.deep_view() == after_queue + steal_advices(stats@.take(i as int)),
            decreases ns@.len() - i,
        {
            let n = &ns[i];
            assert(stats@.take(i + 1).drop_last() =~= stats@.take(i as int));
            assert(stats@[i as int] == *n);
            assert(stats@.take(i + 1).last() == *n);
            let ghost before = recs.deep_view();
            let total = n.local_executions + n.tasks_stolen;
            if total > 100 && n.tasks_stolen > n.local_executions {
                let mut m = String::new();
                push_node_name(&mut m, n.node_id);
                push_str(&mut m, " has more stolen tasks (");
                push_decimal(&mut m, n.tasks_stolen);
                push_str(&mut m, ") than local executions (");
                push_decimal(&mut m, n.local_executions);
                push_str(&mut m, "). Consider pinning related work to this node.");
                assert(m@ =~= steal_advice(*n)[0]);
                recs.push(m);
                assert(recs.deep_view() =~= before.push(steal_advice(*n)[0]));
                assert(steal_advice(*n) =~= seq![steal_advice(*n)[0]]);
            } else {
                assert(steal_advice(*n) =~= Seq::<Seq<char>>::empty());
            }
            assert(recs.deep_view() =~= after_queue + steal_advices(stats@.take(i + 1)));
            i = i + 1;
        }
        assert(stats@.take(ns@.len() as int) =~= stats@);
        let ghost after_steal = recs.deep_view();
        if stats.total_processed() == 0 {
            recs.push(crate::text::owned("No tasks processed yet. Collect more data before drawing conclusions."));
        }
        assert(recs.deep_view() =~= recommendations_for(stats@, health));
        LocalityReport { stats: stats.clone_stats(), health, recommendations: recs }
    }

    /// Get the overall health assessment.
    pub fn health(&self) -> (r: LocalityHealth)
        ensures
            r == self.health_view(),
    {
        self.health
    }

    /// Get the actionable recommendations.
    pub fn recommendations(&self) -> (r: &[String])
        ensures
            r@.len() == self.recommendations_view().len(),
            forall|i: int| 0 <= i < r@.len() ==> (#[trigger] r@[i])@ == self.recommendations_view()[i],
    {
        self.recommendations.as_slice()
    }

    /// Check if there are any recommendations.
    pub fn has_recommendations(&self) -> (r: bool)
        ensures
            r == (self.recommendations_view().len() > 0),
    {
        self.recommendations.len() > 0
    }

    /// Get the underlying statistics.
    pub fn stats(&self) -> (r: &LocalityStats)
        ensures
            r@ == self.stats_view(),
    {
        &self.stats
    }
}

impl LocalityStats {
    /// A copy of the snapshot.
    pub fn clone_stats(&self) -> (r: Self)
        ensures
            r@ == self@,
            r.stamp() == self.stamp(),
    {
        let mut v: Vec<NodeStats> = Vec::new();
        let mut i: usize = 0;
        while i < self.node_stats.len()
            invariant
                i <= self.node_stats@.len(),
                v@ == self.node_stats@.take(i as int),
            decreases self.node_stats@.len() - i,
        {
            v.push(self.node_stats[i]);
            assert(self.node_stats@.take(i + 1) =~= self.node_stats@.take(i as int).push(self.node_stats@[i as int]));
            i = i + 1;
        }
        assert(self.node_stats@.take(self.node_stats@.len() as int) =~= self.node_stats@);
        LocalityStats { node_stats: v, timestamp: copy_instant(&self.timestamp) }
    }
}

/// The smallest and largest queue depths of a non-empty list of nodes.
fn depth_bounds(ns: &[NodeStats]) -> (r: (usize, usize))
    requires
        ns@.len() > 0,
    ensures
        r.0 == min_depth(ns@),
        r.1 == max_depth(ns@),
{
    let mut lo = ns[0].queue_depth;
    let mut hi = ns[0].queue_depth;
    let mut i: usize = 1;
    assert(ns@.take(1).drop_last() =~= Seq::<NodeStats>::empty());
    assert(max_depth(Seq::<NodeStats>::empty()) == 0);
    while i < ns.len()
        invariant
            1 <= i <= ns@.len(),
            lo == min_depth(ns@.take(i as int)),
            hi == max_depth(ns@.take(i as int)),
        decreases ns@.len() - i,
    {
        assert(ns@.take(i + 1).drop_last() =~= ns@.take(i as int));
        let d = ns[i].queue_depth;
        if d < lo {
            lo = d;
        }
        if d > hi {
            hi = d;
        }
        i = i + 1;
    }
    assert(ns@.take(ns@.len() as int) =~= ns@);
    (lo, hi)
}

/// What a `StatsCollector` counts, per node: the node's ID, its local
/// executions, the tasks stolen from it, and the steals it performed.
pub struct CollectorCounts {
    pub ids: Seq<NodeId>,
    pub local: Seq<u64>,
    pub stolen: Seq<u64>,
    pub steals: Seq<u64>,
}

/// Collects locality statistics with per-node counters.
pub struct StatsCollector {
    topo: Arc<Topology>,
    local_executions: ShardedCounter,
    tasks_stolen: NumaSharded<u64>,
    steals_performed: ShardedCounter,
}

impl View for StatsCollector {
    type V = CollectorCounts;

    closed spec fn view(&self) -> CollectorCounts {
        CollectorCounts {
            ids: self.local_executions.ids(),
            local: self.local_executions@,
            stolen: self.tasks_stolen@,
            steals: self.steals_performed@,
        }
    }
}

/// The statistics a collector with counts `c` reports: one entry per
/// shard, in order, with the node's ID and its counts (the stolen and
/// performed counts looked up by that ID), and a queue depth of 0.
pub open spec fn snapshot_of(c: CollectorCounts) -> Seq<NodeStats> {
    Seq::new(
        c.local.len(),
        |i: int|
            NodeStats {
                node_id: c.ids[i],
                local_executions: c.local[i],
                tasks_stolen: c.stolen[id_position(c.ids, c.ids[i])],
                steals_performed: c.steals[id_position(c.ids, c.ids[i])],
                queue_depth: 0,
            },
    )
}

impl StatsCollector {
    /// The counters have one entry per node of the topology.
    pub closed spec fn wf(&self) -> bool {
        &&& self.local_executions.topo() == *self.topo
        &&& self.steals_performed.topo() == *self.topo
        &&& self.tasks_stolen.topo() == *self.topo
        &&& self.local_executions.ids() == node_ids(self.topo@.nodes)
        &&& self.steals_performed.ids() == node_ids(self.topo@.nodes)
        &&& self.tasks_stolen.ids() == node_ids(self.topo@.nodes)
        &&& self.local_executions@.len() == self.topo@.nodes.len()
        &&& self.tasks_stolen@.len() == self.topo@.nodes.len()
        &&& self.steals_performed@.len() == self.topo@.nodes.len()
    }

    /// The topology the counters follow.
    pub closed spec fn topo(&self) -> Topology {
        *self.topo
    }

    /// Create a new statistics collector with all counts at zero.
    pub fn new(topo: &Arc<Topology>) -> (r: Self)
        ensures
            r.wf(),
            r.topo() == **topo,
            r@.ids == node_ids(topo@.nodes),
            r@.local == Seq::new(topo@.nodes.len(), |i: int| 0u64),
            r@.stolen == Seq::new(topo@.nodes.len(), |i: int| 0u64),
            r@.steals == Seq::new(topo@.nodes.len(), |i: int| 0u64),
    {
        let stolen = NumaSharded::new(topo, || -> (z: u64) ensures z == 0 { 0u64 });
        assert(stolen@ =~= Seq::new(topo@.nodes.len(), |i: int| 0u64));
        StatsCollector {
            topo: Arc::clone(topo),
            local_executions: ShardedCounter::new(topo),
            tasks_stolen: stolen,
            steals_performed: ShardedCounter::new(topo),
        }
    }

    /// Record a local execution on the node of CPU `cpu`.
    pub fn record_local_execution(&mut self, cpu: i32)
        requires
            old(self).wf(),
            old(self).topo()@.nodes.len() > 0,
        ensures
            final(self).wf(),
            ({
                let i = local_index(old(self).topo(), old(self)@.ids, cpu) as int;
                final(self)@.local == old(self)@.local.update(
                    i,
                    vstd::wrapping::u64_specs::wrapping_add(old(self)@.local[i], 1),
                )
            }),
            final(self)@.stolen == old(self)@.stolen,
            final(self)@.steals == old(self)@.steals,
            final(self)@.ids == old(self)@.ids,
            final(self).topo() == old(self).topo(),
    {
        self.record_local_executions(cpu, 1);
    }

    /// Record `count` local executions on the node of CPU `cpu`.
    pub fn record_local_executions(&mut self, cpu: i32, count: u64)
        requires
            old(self).wf(),
            old(self).topo()@.nodes.len() > 0,
        ensures
            final(self).wf(),
            ({
                let i = local_index(old(self).topo(), old(self)@.ids, cpu) as int;
                final(self)@.local == old(self)@.local.update(
                    i,
                    vstd::wrapping::u64_specs::wrapping_add(old(self)@.local[i], count),
                )
            }),
            final(self)@.stolen == old(self)@.stolen,
            final(self)@.steals == old(self)@.steals,
            final(self)@.ids == old(self)@.ids,
            final(self).topo() == old(self).topo(),
    {
        proof {
            lemma_local_index_bound(self.topo(), self@.ids, cpu);
        }
        self.local_executions.add(cpu, count);
    }

    /// Record that the node of CPU `cpu` stole a task from `from_node`.
    pub fn record_steal(&mut self, cpu: i32, from_node: NodeId)
        requires
            old(self).wf(),
            old(self).topo()@.nodes.len() > 0,
        ensures
            final(self).wf(),
            ({
                let i = local_index(old(self).topo(), old(self)@.ids, cpu) as int;
                final(self)@.steals == old(self)@.steals.update(
                    i,
                    vstd::wrapping::u64_specs::wrapping_add(old(self)@.steals[i], 1),
                )
            }),
            final(self)@.stolen == if old(self)@.ids.contains(from_node) {
                old(self)@.stolen.update(
                    id_position(old(self)@.ids, from_node),
                    vstd::wrapping::u64_specs::wrapping_add(
                        old(self)@.stolen[id_position(old(self)@.ids, from_node)],
                        1,
                    ),
                )
            } else {
                old(self)@.stolen
            },
            final(self)@.local == old(self)@.local,
            final(self)@.ids == old(self)@.ids,
            final(self).topo() == old(self).topo(),
    {
        self.record_steals(cpu, from_node, 1);
    }

    /// Record that the node of CPU `cpu` stole `count` tasks from `from_node`.
    pub fn record_steals(&mut self, cpu: i32, from_node: NodeId, count: u64)
        requires
            old(self).wf(),
            old(self).topo()@.nodes.len() > 0,
        ensures
            final(self).wf(),
            ({
                let i = local_index(old(self).topo(), old(self)@.ids, cpu) as int;
                final(self)@.steals == old(self)@.steals.update(
                    i,
                    vstd::wrapping::u64_specs::wrapping_add(old(self)@.steals[i], count),
                )
            }),
            final(self)@.stolen == if old(self)@.ids.contains(from_node) {
                old(self)@.stolen.update(
                    id_position(old(self)@.ids, from_node),
                    vstd::wrapping::u64_specs::wrapping_add(
                        old(self)@.stolen[id_position(old(self)@.ids, from_node)],
                        count,
                    ),
                )
            } else {
                old(self)@.stolen
            },
            final(self)@.local == old(self)@.local,
            final(self)@.ids == old(self)@.ids,
            final(self).topo() == old(self).topo(),
    {
        proof {
            lemma_local_index_bound(self.topo(), self@.ids, cpu);
        }
        self.steals_performed.add(cpu, count);
        match self.tasks_stolen.get(from_node) {
            Some(c) => {
                let v = c.wrapping_add(count);
                let _ = self.tasks_stolen.set(from_node, v);
            },
            None => {},
        }
        proof {
            lemma_id_position(old(self)@.ids, from_node);
        }
    }

    /// Take a snapshot of the current statistics: one entry per node, in
    /// node order, with a queue depth of 0.
    pub fn snapshot(&self) -> (r: LocalityStats)
        requires
            self.wf(),
        ensures
            r@ == snapshot_of(self@),
    {
        let locals = self.local_executions.iter();
        let ghost c = self@;
        let mut out: Vec<NodeStats> = Vec::new();
        let mut i: usize = 0;
        while i < locals.len()
            invariant
                self.wf(),
                c == self@,
                locals@.len() == c.local.len(),
                c.stolen.len() == c.local.len(),
                c.steals.len() == c.local.len(),
                c.ids.len() == c.local.len(),
                forall|k: int|
                    0 <= k < locals@.len() ==> (#[trigger] locals@[k]).0 == c.ids[k] && locals@[k].1 == c.local[k],
                i <= locals@.len(),
                out@ == snapshot_of(c).take(i as int),
            decreases locals@.len() - i,
        {
            let (node_id, local) = locals[i];
            proof {
                assert(c.ids.contains(node_id)) by {
                    assert(c.ids[i as int] == node_id);
                }
                lemma_id_position(c.ids, node_id);
            }
            let stolen = match self.tasks_stolen.get(node_id) {
                Some(v) => *v,
                None => 0,
            };
            let steals = match self.steals_performed.node_count(node_id) {
                Some(v) => v,
                None => 0,
            };
            out.push(NodeStats { node_id, local_executions: local, tasks_stolen: stolen, steals_performed: steals, queue_depth: 0 });
            assert(snapshot_of(c).take(i + 1) =~= snapshot_of(c).take(i as int).push(snapshot_of(c)[i as int]));
            i = i + 1;
        }
        assert(snapshot_of(c).take(locals@.len() as int) =~= snapshot_of(c));
        LocalityStats::new(out)
    }

    /// Reset all counters to zero.
    pub fn reset(&mut self)
        requires
            old(self).wf(),
        ensures
            final(self).wf(),
            final(self)@.local == Seq::new(old(self)@.local.len(), |i: int| 0u64),
            final(self)@.stolen == Seq::new(old(self)@.stolen.len(), |i: int| 0u64),
            final(self)@.steals == Seq::new(old(self)@.steals.len(), |i: int| 0u64),
            final(self)@.ids == old(self)@.ids,
            final(self).topo() == old(self).topo(),
    {
        self.local_executions.reset();
        self.steals_performed.reset();
        let ghost loc = self.local_executions@;
        let ghost st = self.steals_performed@;
        let n = self.tasks_stolen.len();
        let mut i: usize = 0;
        while i < n
            invariant
                n == old(self)@.stolen.len() == self.tasks_stolen@.len(),
                i <= n,
                self.local_executions@ == loc,
                self.steals_performed@ == st,
                self.local_executions.topo() == old(self).topo(),
                self.steals_performed.topo() == old(self).topo(),
                *self.topo == old(self).topo(),
                self.tasks_stolen.topo() == old(self).topo(),
                self.tasks_stolen.ids() == old(self).tasks_stolen.ids(),
                self.local_executions.ids() == old(self).local_executions.ids(),
                self.steals_performed.ids() == old(self).steals_performed.ids(),
                forall|k: int| 0 <= k < i ==> self.tasks_stolen@[k] == 0,
            decreases n - i,
        {
            self.tasks_stolen.put(i, 0);
            i = i + 1;
        }
        assert(self.tasks_stolen@ =~= Seq::new(old(self)@.stolen.len(), |i: int| 0u64));
    }

    /// Get the topology.
    pub fn topology(&self) -> (r: &Arc<Topology>)
        ensures
            **r == self.topo(),
    {
        &self.topo
    }

    /// Get total local executions across all nodes.
    pub fn total_local_executions(&self) -> (r: u64)
        requires
            total(self@.local) <= u64::MAX,
        ensures
            r == total(self@.local),
    {
        self.local_executions.sum()
    }

    /// Get total steals performed across all nodes.
    pub fn total_steals(&self) -> (r: u64)
        requires
            total(self@.steals) <= u64::MAX,
        ensures
            r == total(self@.steals),
    {
        self.steals_performed.sum()
    }
}

/// One line per node: two spaces, the node's display text, a newline.
pub open spec fn per_node_lines(s: Seq<NodeStats>) -> Seq<char>
    decreases s.len(),
{
    if s.len() == 0 {
        Seq::empty()
    } else {
        per_node_lines(s.drop_last()) + "  "@ + node_stats_text(s.last()) + "\n"@
    }
}

/// The recommendations as a numbered list, one per line, from 1.
pub open spec fn numbered(recs: Seq<Seq<char>>) -> Seq<char>
    decreases recs.len(),
{
    if recs.len() == 0 {
        Seq::empty()
    } else {
        numbered(recs.drop_last()) + "  "@ + dec(recs.len()) + ". "@ + recs.last() + "\n"@
    }
}

/// The text of a report; `ratio` is the locality ratio in percent, as
/// written by the caller.
pub open spec fn report_text(
    s: Seq<NodeStats>,
    health: LocalityHealth,
    recs: Seq<Seq<char>>,
    ratio: Seq<char>,
) -> Seq<char> {
    "=== NUMA Locality Report ===\n"@ + "\n"@ + "Health: "@ + health_label(health) + " - "@
        + health_description(health) + "\n"@ + "\n"@ + "Statistics:\n"@ + "  Total processed: "@
        + dec(sum_local(s) + sum_steals(s)) + "\n"@ + "  Local executions: "@ + dec(sum_local(s))
        + "\n"@ + "  Remote steals: "@ + dec(sum_steals(s)) + "\n"@ + "  Locality ratio: "@ + ratio
        + "%\n"@ + (if s.len() > 1 {
        "\n"@ + "Per-node breakdown:\n"@ + per_node_lines(s)
    } else {
        Seq::empty()
    }) + (if recs.len() > 0 {
        "\n"@ + "Recommendations:\n"@ + numbered(recs)
    } else {
        Seq::empty()
    })
}

/// The summary text of statistics; `ratio` as in `report_text`.
pub open spec fn stats_summary_text(s: Seq<NodeStats>, ratio: Seq<char>) -> Seq<char> {
    stats_title(s) + count_line("  Total processed: "@, sum_local(s) + sum_steals(s)) + count_line(
        "  Local executions: "@,
        sum_local(s),
    ) + count_line("  Remote steals: "@, sum_steals(s)) + ("  Locality ratio: "@ + ratio + "%\n"@)
        + count_line("  Queue depth: "@, sum_depth(s)) + breakdown(s)
}

/// The first line of the summary of statistics.
pub open spec fn stats_title(s: Seq<NodeStats>) -> Seq<char> {
    "Locality Stats ("@ + dec(s.len()) + " nodes)\n"@
}

/// A line of a label and a number.
pub open spec fn count_line(label: Seq<char>, n: nat) -> Seq<char> {
    label + dec(n) + "\n"@
}

/// The per-node part of the summary of statistics.
pub open spec fn breakdown(s: Seq<NodeStats>) -> Seq<char> {
    "\n"@ + "Per-node breakdown:\n"@ + per_node_lines(s)
}

/// Appends a line of a label and a number.
fn push_count_line(out: &mut String, label: &str, n: u64)
    ensures
        final(out)@ == old(out)@ + count_line(label@, n as nat),
{
    push_str(out, label);
    push_decimal(out, n);
    push_str(out, "\n");
    assert(final(out)@ =~= old(out)@ + count_line(label@, n as nat));
}

/// The one-line text of statistics; `ratio` as in `report_text`.
pub open spec fn stats_text(s: Seq<NodeStats>, ratio: Seq<char>) -> Seq<char> {
    "LocalityStats(processed="@ + dec(sum_local(s) + sum_steals(s)) + ", local="@ + dec(
        sum_local(s),
    ) + ", remote="@ + dec(sum_steals(s)) + ", ratio="@ + ratio + "%)"@
}

/// Appends one line per node.
fn push_node_lines(out: &mut String, ns: &[NodeStats])
    ensures
        final(out)@ == old(out)@ + per_node_lines(ns@),
{
    let ghost start = out@;
    let mut i: usize = 0;
    assert(ns@.take(0) =~= Seq::<NodeStats>::empty());
    while i < ns.len()
        invariant
            i <= ns@.len(),
            out@ == start + per_node_lines(ns@.take(i as int)),
        decreases ns@.len() - i,
    {
        assert(ns@.take(i + 1).drop_last() =~= ns@.take(i as int));
        assert(ns@.take(i + 1).last() == ns@[i as int]);
        push_str(out, "  ");
        let t = ns[i].to_string();
        push_str(out, t.as_str());
        push_str(out, "\n");
        assert(out@ =~= start + per_node_lines(ns@.take(i + 1)));
        i = i + 1;
    }
    assert(ns@.take(ns@.len() as int) =~= ns@);
}

impl LocalityStats {
    /// A human-readable summary; `ratio_percent` is the locality ratio in
    /// percent as the caller writes it (such as "90.0").
    pub fn summary(&self, ratio_percent: &str) -> (r: String)
        requires
            sum_local(self@) + sum_steals(self@) <= u64::MAX,
            sum_depth(self@) <= usize::MAX,
        ensures
            r@ == stats_summary_text(self@, ratio_percent@),
    {
        let mut s = String::new();
        push_str(&mut s, "Locality Stats (");
        push_decimal(&mut s, self.node_stats.len() as u64);
        push_str(&mut s, " nodes)\n");
        assert(s@ =~= stats_title(self@));
        push_count_line(&mut s, "  Total processed: ", self.total_processed());
        push_count_line(&mut s, "  Local executions: ", self.local_executions());
        push_count_line(&mut s, "  Remote steals: ", self.remote_steals());
        let ghost before_ratio = s@;
        push_str(&mut s, "  Locality ratio: ");
        push_str(&mut s, ratio_percent);
        push_str(&mut s, "%\n");
        assert(s@ =~= before_ratio + ("  Locality ratio: "@ + ratio_percent@ + "%\n"@));
        push_count_line(&mut s, "  Queue depth: ", self.total_queue_depth() as u64);
        let ghost before_nodes = s@;
        push_str(&mut s, "\n");
        push_str(&mut s, "Per-node breakdown:\n");
        push_node_lines(&mut s, self.node_stats.as_slice());
        assert(s@ =~= before_nodes + breakdown(self@));
        assert(s@ =~= stats_summary_text(self@, ratio_percent@));
        s
    }

    /// The one-line display text; `ratio_percent` as in `summary`.
    pub fn to_string(&self, ratio_percent: &str) -> (r: String)
        requires
            sum_local(self@) + sum_steals(self@) <= u64::MAX,
        ensures
            r@ == stats_text(self@, ratio_percent@),
    {
        let mut s = String::new();
        push_str(&mut s, "LocalityStats(processed=");
        push_decimal(&mut s, self.total_processed());
        push_str(&mut s, ", local=");
        push_decimal(&mut s, self.local_executions());
        push_str(&mut s, ", remote=");
        push_decimal(&mut s, self.remote_steals());
        push_str(&mut s, ", ratio=");
        push_str(&mut s, ratio_percent);
        push_str(&mut s, "%)");
        assert(s@ =~= stats_text(self@, ratio_percent@));
        s
    }
}

impl LocalityReport {
    /// The report as text; `ratio_percent` is the locality ratio in percent
    /// as the caller writes it (such as "80.0").
    pub fn format(&self, ratio_percent: &str) -> (r: String)
        requires
            sum_local(self.stats_view()) + sum_steals(self.stats_view()) <= u64::MAX,
        ensures
            r@ == report_text(
                self.stats_view(),
                self.health_view(),
                self.recommendations_view(),
                ratio_percent@,
            ),
    {
        let mut s = String::new();
        push_str(&mut s, "=== NUMA Locality Report ===\n");
        push_str(&mut s, "\n");
        push_str(&mut s, "Health: ");
        push_str(&mut s, self.health.to_str());
        push_str(&mut s, " - ");
        push_str(&mut s, self.health.description());
        push_str(&mut s, "\n");
        push_str(&mut s, "\n");
        push_str(&mut s, "Statistics:\n");
        push_str(&mut s, "  Total processed: ");
        push_decimal(&mut s, self.stats.total_processed());
        push_str(&mut s, "\n");
        push_str(&mut s, "  Local executions: ");
        push_decimal(&mut s, self.stats.local_executions());
        push_str(&mut s, "\n");
        push_str(&mut s, "  Remote steals: ");
        push_decimal(&mut s, self.stats.remote_steals());
        push_str(&mut s, "\n");
        push_str(&mut s, "  Locality ratio: ");
        push_str(&mut s, ratio_percent);
        push_str(&mut s, "%\n");
        let ghost head = s@;
        if self.stats.node_count() > 1 {
            push_str(&mut s, "\n");
            push_str(&mut s, "Per-node breakdown:\n");
            push_node_lines(&mut s, self.stats.node_stats());
        }
        let ghost mid = s@;
        let recs = &self.recommendations;
        if recs.len() > 0 {
            push_str(&mut s, "\n");
            push_str(&mut s, "Recommendations:\n");
            let ghost start = s@;
            let ghost rv = recs.deep_view();
            let mut i: usize = 0;
            assert(rv.take(0) =~= Seq::<Seq<char>>::empty());
            while i < recs.len()
                invariant
                    i <= recs@.len(),
                    rv == recs.deep_view(),
                    s@ == start + numbered(rv.take(i as int)),
                decreases recs@.len() - i,
            {
                assert(rv.take(i + 1).drop_last() =~= rv.take(i as int));
                assert(rv.take(i + 1).last() == recs@[i as int]@);
                push_str(&mut s, "  ");
                push_decimal(&mut s, (i + 1) as u64);
                push_str(&mut s, ". ");
                push_str(&mut s, recs[i].as_str());
                push_str(&mut s, "\n");
                assert(s@ =~= start + numbered(rv.take(i + 1)));
                i = i + 1;
            }
            assert(rv.take(recs@.len() as int) =~= rv);
        }
        assert(s@ =~= report_text(
            self.stats_view(),
            self.health_view(),
            self.recommendations_view(),
            ratio_percent@,
        ));
        s
    }
}

} // verus!
