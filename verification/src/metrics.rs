use crate::node_ref::{NodeId, NodeKey};
use std::time::{Duration, Instant};
use vstd::prelude::*;

verus! {

#[verifier::external_type_specification]
#[verifier::external_body]
pub struct ExInstant(Instant);

/// `Instant::now`: the current time; nothing is promised of it.
#[verifier::external_body]
pub(crate) fn now() -> Instant {
    Instant::now()
}

/// `Instant::elapsed`: the time since `start`; it depends on the clock, so
/// nothing is promised of it.
#[verifier::external_body]
pub(crate) fn elapsed(start: &Instant) -> Duration {
    start.elapsed()
}

/// Metrics for a single propagation cycle.
#[derive(Debug)]
pub struct CycleMetrics {
    pub cycle_id: u64,
    pub duration: Duration,
    pub nodes_computed: usize,
    pub per_node_durations: Vec<(NodeId, Duration)>,
}

impl CycleMetrics {
    /// The nodes timed in this cycle, in the order they ran.
    pub open spec fn timed_nodes(&self) -> Seq<NodeKey> {
        self.per_node_durations@.map_values(|p: (NodeId, Duration)| p.0@)
    }

    /// A copy of these metrics.
    pub fn copy(&self) -> (r: CycleMetrics)
        ensures
            r.cycle_id == self.cycle_id,
            r.duration == self.duration,
            r.nodes_computed == self.nodes_computed,
            r.timed_nodes() == self.timed_nodes(),
            forall|i: int|
                0 <= i < r.per_node_durations@.len() ==> #[trigger] r.per_node_durations@[i].1
                    == self.per_node_durations@[i].1,
    {
        let mut per: Vec<(NodeId, Duration)> = Vec::new();
        let mut i: usize = 0;
        while i < self.per_node_durations.len()
            invariant
                i <= self.per_node_durations@.len(),
                per@.len() == i,
                forall|j: int|
                    0 <= j < i ==> per@[j].0@ == self.per_node_durations@[j].0@
                        && per@[j].1 == self.per_node_durations@[j].1,
            decreases self.per_node_durations@.len() - i,
        {
            let (id, d) = (&self.per_node_durations[i].0, self.per_node_durations[i].1);
            per.push((id.clone(), d));
            i = i + 1;
        }
        let r = CycleMetrics {
            cycle_id: self.cycle_id,
            duration: self.duration,
            nodes_computed: self.nodes_computed,
            per_node_durations: per,
        };
        assert(r.timed_nodes() =~= self.timed_nodes());
        r
    }
}

/// Aggregate engine metrics.
#[derive(Debug)]
pub struct EngineMetrics {
    pub total_cycles: u64,
    pub active_sources: usize,
    pub active_computes: usize,
    pub active_sinks: usize,
    pub active_async_computes: usize,
    pub pending_async: usize,
    pub last_cycle: Option<CycleMetrics>,
}

/// Collects metrics during engine operation.
pub struct MetricsCollector {
    total_cycles: u64,
    last_cycle: Option<CycleMetrics>,
}

impl MetricsCollector {
    /// Number of cycles recorded so far.
    pub closed spec fn cycles(&self) -> u64 {
        self.total_cycles
    }

    /// The metrics of the last recorded cycle.
    pub closed spec fn last(&self) -> Option<CycleMetrics> {
        self.last_cycle
    }

    /// A collector that has recorded nothing.
    pub fn new() -> (r: Self)
        ensures
            r.cycles() == 0,
            r.last() is None,
    {
        MetricsCollector { total_cycles: 0, last_cycle: None }
    }

    /// Record a completed cycle.
    pub fn record_cycle(&mut self, metrics: CycleMetrics)
        requires
            old(self).cycles() < u64::MAX,
        ensures
            final(self).cycles() == old(self).cycles() + 1,
            final(self).last() == Some(metrics),
    {
        self.total_cycles = self.total_cycles + 1;
        self.last_cycle = Some(metrics);
    }

    /// Number of cycles recorded so far.
    pub fn total_cycles(&self) -> (r: u64)
        ensures
            r == self.cycles(),
    {
        self.total_cycles
    }

    /// The metrics of the last recorded cycle.
    pub fn last_cycle(&self) -> (r: Option<&CycleMetrics>)
        ensures
            match r {
                Some(m) => self.last() == Some(*m),
                None => self.last() is None,
            },
    {
        self.last_cycle.as_ref()
    }
}

} // verus!
