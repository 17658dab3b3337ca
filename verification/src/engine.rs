use crate::async_compute::{after_completions, after_spawns, AsyncManager, ConcurrencyGroupHandle};
use crate::channel;
use crate::error::ErrorStrategy;
use crate::facts::{lemma_insert_keys, lemma_remove_keys};
use crate::graph::{inputs_of, ActivationGuard, AsyncPolicy, Graph, NodeEntry, NodeKind};
use crate::id_map::{IdMap, IdSet};
use crate::introspection::{GraphSnapshot, NodeInfo};
use crate::metrics::{elapsed, now, CycleMetrics, EngineMetrics, MetricsCollector};
use std::time::Duration;
use crate::node_ref::{clone_ids, ids_view, NodeId, NodeKey};
use crate::scheduler::{
    ordered_input, runs_at, runs_in_waves, single_output, wave_computes, wave_nodes, wave_step, wave_sink_calls, waves_in_order, write_outputs,
    Scheduler,
};
use crate::topology::{count_of, Topology};
use vstd::prelude::*;

verus! {

/// `a` and `b` hold the same value for `k`, or both none.
pub open spec fn same_value<V>(a: Map<NodeKey, V>, b: Map<NodeKey, V>, k: NodeKey) -> bool {
    a.contains_key(k) == b.contains_key(k) && (a.contains_key(k) ==> a[k] == b[k])
}

/// The dependencies of a registry entry, by key.
pub open spec fn deps_keys<V, W>(e: NodeEntry<V, W>) -> Seq<NodeKey> {
    ids_view(e.deps@)
}

/// Two registries hold the same nodes with the same ids, kinds,
/// dependencies and reference counts; only the implementations of sources
/// may differ (activating a source uses it up).
pub open spec fn same_registry<V, W>(a: Map<NodeKey, NodeEntry<V, W>>, b: Map<NodeKey, NodeEntry<V, W>>) -> bool {
    &&& a.dom() == b.dom()
    &&& forall|k: NodeKey| #[trigger]
        a.contains_key(k) ==> {
            &&& b[k].id == a[k].id
            &&& b[k].kind == a[k].kind
            &&& b[k].deps == a[k].deps
            &&& b[k].ref_count == a[k].ref_count
            &&& (a[k].kind != NodeKind::Source ==> b[k] == a[k])
        }
}

/// How many of `keys` are registered in `nodes` with kind `kind`.
pub open spec fn count_kind<V, W>(keys: Seq<NodeKey>, nodes: Map<NodeKey, NodeEntry<V, W>>, kind: NodeKind) -> nat
    decreases keys.len(),
{
    if keys.len() == 0 {
        0
    } else {
        count_kind(keys.drop_last(), nodes, kind) + if nodes.contains_key(keys.last())
            && nodes[keys.last()].kind == kind {
            1nat
        } else {
            0nat
        }
    }
}

/// The edges of the nodes `keys`, in order: `(dependency, node)` for each
/// dependency of each registered node.
pub open spec fn edges_of<V, W>(keys: Seq<NodeKey>, nodes: Map<NodeKey, NodeEntry<V, W>>) -> Seq<(NodeKey, NodeKey)>
    decreases keys.len(),
{
    if keys.len() == 0 {
        Seq::empty()
    } else {
        let k = keys.last();
        edges_of(keys.drop_last(), nodes) + if nodes.contains_key(k) {
            deps_keys(nodes[k]).map_values(|d: NodeKey| (d, k))
        } else {
            Seq::empty()
        }
    }
}

/// The error strategy set for `k`, or the default one.
pub open spec fn strategy_of(strategies: Map<NodeKey, ErrorStrategy>, k: NodeKey) -> ErrorStrategy {
    if strategies.contains_key(k) {
        strategies[k]
    } else {
        ErrorStrategy::PropagateStale
    }
}

/// The store after compute node `k` gave `out` under `strategy`: a value
/// replaces the old one; without a value the old one stays, except under
/// `PropagateError`, which removes it so that dependents see it missing.
pub open spec fn compute_outcome<V>(strategy: ErrorStrategy, store: Map<NodeKey, V>, k: NodeKey, out: Option<V>) -> Map<NodeKey, V> {
    match out {
        Some(v) => store.insert(k, v),
        None => match strategy {
            ErrorStrategy::PropagateError => store.remove(k),
            _ => store,
        },
    }
}

/// One node of a cycle, run on `before`: a compute node stores what it
/// computes from the values of its dependencies, as its error strategy says;
/// any other node, or one that is not registered, leaves the store as it is.
pub open spec fn node_step<V, W>(
    nodes: Map<NodeKey, NodeEntry<V, W>>,
    strategies: Map<NodeKey, ErrorStrategy>,
    k: NodeKey,
    before: Map<NodeKey, V>,
    after: Map<NodeKey, V>,
) -> bool {
    if nodes.contains_key(k) && nodes[k].kind == NodeKind::Compute {
        exists|out: Option<V>|
            #![trigger nodes[k].node_impl.computes(inputs_of(deps_keys(nodes[k]), before), out)]
            nodes[k].node_impl.computes(inputs_of(deps_keys(nodes[k]), before), out) && after
                == compute_outcome(strategy_of(strategies, k), before, k, out)
    } else {
        after == before
    }
}

/// The sink calls of a run of `sorted` along `trace`: each registered sink,
/// in order, with the values its dependencies have in the store of its turn.
pub open spec fn sink_calls<V, W>(
    nodes: Map<NodeKey, NodeEntry<V, W>>,
    sorted: Seq<NodeKey>,
    trace: Seq<Map<NodeKey, V>>,
) -> Seq<(NodeKey, Seq<Option<V>>)>
    decreases sorted.len(),
{
    if sorted.len() == 0 {
        seq![]
    } else {
        let k = sorted.last();
        let rest = sink_calls(nodes, sorted.drop_last(), trace);
        if nodes.contains_key(k) && nodes[k].kind == NodeKind::Sink {
            rest.push((k, inputs_of(deps_keys(nodes[k]), trace[sorted.len() - 1])))
        } else {
            rest
        }
    }
}

/// The sink calls of a run read only the stores of the run's turns.
proof fn lemma_sink_calls_prefix<V, W>(
    nodes: Map<NodeKey, NodeEntry<V, W>>,
    sorted: Seq<NodeKey>,
    t1: Seq<Map<NodeKey, V>>,
    t2: Seq<Map<NodeKey, V>>,
)
    requires
        t1.len() >= sorted.len(),
        t2.len() >= sorted.len(),
        forall|j: int| 0 <= j < sorted.len() ==> t1[j] == t2[j],
    ensures
        sink_calls(nodes, sorted, t1) == sink_calls(nodes, sorted, t2),
    decreases sorted.len(),
{
    if sorted.len() > 0 {
        lemma_sink_calls_prefix(nodes, sorted.drop_last(), t1, t2);
        assert(t1[sorted.len() - 1] == t2[sorted.len() - 1]);
    }
}

/// One more turn of a run: its sink call, if it is a registered sink, comes
/// after those of the turns before.
proof fn lemma_sink_calls_step<V, W>(
    nodes: Map<NodeKey, NodeEntry<V, W>>,
    s: Seq<NodeKey>,
    t: Seq<Map<NodeKey, V>>,
)
    requires
        s.len() > 0,
        t.len() == s.len() + 1,
    ensures
        sink_calls(nodes, s, t) == (if nodes.contains_key(s.last()) && nodes[s.last()].kind == NodeKind::Sink {
            sink_calls(nodes, s.drop_last(), t.drop_last()).push(
                (s.last(), inputs_of(deps_keys(nodes[s.last()]), t[s.len() - 1])),
            )
        } else {
            sink_calls(nodes, s.drop_last(), t.drop_last())
        }),
{
    lemma_sink_calls_prefix(nodes, s.drop_last(), t, t.drop_last());
}

/// The registry after deactivating `k` (with at most `fuel` nested steps):
/// an unknown node changes nothing; a node with more than one reference
/// loses one; otherwise the node leaves and each of its dependencies, in
/// order, is deactivated in turn.
pub open spec fn released<V, W>(nodes: Map<NodeKey, NodeEntry<V, W>>, k: NodeKey, fuel: nat) -> Map<
    NodeKey,
    NodeEntry<V, W>,
>
    decreases fuel, 0nat, 0nat,
{
    if fuel == 0 || !nodes.contains_key(k) {
        nodes
    } else if nodes[k].ref_count > 1 {
        nodes.insert(k, NodeEntry { ref_count: (nodes[k].ref_count - 1) as usize, ..nodes[k] })
    } else {
        released_all(nodes.remove(k), deps_keys(nodes[k]), (fuel - 1) as nat)
    }
}

/// The registry after deactivating each of `ds` in turn (see `released`).
pub open spec fn released_all<V, W>(nodes: Map<NodeKey, NodeEntry<V, W>>, ds: Seq<NodeKey>, fuel: nat) -> Map<
    NodeKey,
    NodeEntry<V, W>,
>
    decreases fuel, 1nat, ds.len(),
{
    if ds.len() == 0 {
        nodes
    } else {
        released_all(released(nodes, ds[0], fuel), ds.drop_first(), fuel)
    }
}

/// The computations invoked when the `i`-th node of `sorted` is invoked
/// `counts[i]` times, in order.
pub open spec fn invoked_each(sorted: Seq<NodeKey>, counts: Seq<nat>) -> Seq<NodeKey>
    decreases sorted.len(),
{
    if sorted.len() == 0 || counts.len() == 0 {
        seq![]
    } else {
        invoked_each(sorted.drop_last(), counts.drop_last()) + Seq::new(counts.last(), |j: int| sorted.last())
    }
}

/// How often a sequential run invokes the node `k`: a registered compute
/// node once, or, when it is retried, at least once and at most its
/// attempts; any other node never.
pub open spec fn attempt_count<V, W>(
    nodes: Map<NodeKey, NodeEntry<V, W>>,
    strategies: Map<NodeKey, ErrorStrategy>,
    k: NodeKey,
    n: nat,
) -> bool {
    if nodes.contains_key(k) && nodes[k].kind == NodeKind::Compute {
        match strategy_of(strategies, k) {
            ErrorStrategy::Retry { max_attempts, .. } => 1 <= n <= if max_attempts == 0 {
                1
            } else {
                max_attempts as int
            },
            _ => n == 1,
        }
    } else {
        n == 0
    }
}

/// `counts[i]` is how often a sequential run invokes the `i`-th node of
/// `sorted` (see `attempt_count`).
pub open spec fn attempt_counts<V, W>(
    nodes: Map<NodeKey, NodeEntry<V, W>>,
    strategies: Map<NodeKey, ErrorStrategy>,
    sorted: Seq<NodeKey>,
    counts: Seq<nat>,
) -> bool {
    &&& counts.len() == sorted.len()
    &&& forall|i: int| 0 <= i < sorted.len() ==> #[trigger] attempt_count(nodes, strategies, sorted[i], counts[i])
}

proof fn lemma_counts_step<V, W>(
    nodes: Map<NodeKey, NodeEntry<V, W>>,
    strategies: Map<NodeKey, ErrorStrategy>,
    s: Seq<NodeKey>,
    counts: Seq<nat>,
    n: nat,
)
    requires
        s.len() > 0,
        attempt_counts(nodes, strategies, s.drop_last(), counts),
        attempt_count(nodes, strategies, s.last(), n),
    ensures
        attempt_counts(nodes, strategies, s, counts.push(n)),
{
    assert forall|i: int| 0 <= i < s.len() implies #[trigger] attempt_count(nodes, strategies, s[i], counts.push(n)[i]) by {
        if i < s.len() - 1 {
            assert(s.drop_last()[i] == s[i]);
            assert(attempt_count(nodes, strategies, s.drop_last()[i], counts[i]));
        }
    }
}

proof fn lemma_invoked_each_push(sorted: Seq<NodeKey>, counts: Seq<nat>, k: NodeKey, n: nat)
    requires
        counts.len() == sorted.len(),
    ensures
        invoked_each(sorted.push(k), counts.push(n)) == invoked_each(sorted, counts) + Seq::new(n, |j: int| k),
{
    assert(sorted.push(k).drop_last() =~= sorted);
    assert(counts.push(n).drop_last() =~= counts);
}

/// `trace` runs the nodes of `sorted` one after the other: each store is the
/// one before it with the next node run on it.
pub open spec fn runs_in_order<V, W>(
    nodes: Map<NodeKey, NodeEntry<V, W>>,
    strategies: Map<NodeKey, ErrorStrategy>,
    sorted: Seq<NodeKey>,
    trace: Seq<Map<NodeKey, V>>,
) -> bool {
    &&& trace.len() == sorted.len() + 1
    &&& forall|i: int|
        0 <= i < sorted.len() ==> #[trigger] node_step(nodes, strategies, sorted[i], trace[i], trace[i + 1])
}

/// The nodes of `sorted` that are registered in `nodes`, in order.
pub open spec fn registered_only<V, W>(sorted: Seq<NodeKey>, nodes: Map<NodeKey, NodeEntry<V, W>>) -> Seq<NodeKey>
    decreases sorted.len(),
{
    if sorted.len() == 0 {
        Seq::empty()
    } else {
        let rest = registered_only(sorted.drop_last(), nodes);
        if nodes.contains_key(sorted.last()) {
            rest.push(sorted.last())
        } else {
            rest
        }
    }
}

/// Async work to hand to the async manager: the node, its work, and the
/// node's policy and group.
pub struct AsyncSpawn<W> {
    pub node_id: NodeId,
    pub work: W,
    pub policy: AsyncPolicy,
    pub group_id: Option<usize>,
}

/// The spawns as contracts see them.
pub open spec fn spawns_view<W>(s: Seq<AsyncSpawn<W>>) -> Seq<(NodeKey, W, AsyncPolicy, Option<usize>)> {
    s.map_values(|x: AsyncSpawn<W>| (x.node_id@, x.work, x.policy, x.group_id))
}

/// What the node `k` hands out for spawning when it runs on `store`: an
/// async node what its `compute_async` may give for the values of its
/// dependencies there; any other node, or one that is not registered,
/// nothing.
pub open spec fn async_out<V, W>(
    nodes: Map<NodeKey, NodeEntry<V, W>>,
    k: NodeKey,
    store: Map<NodeKey, V>,
    out: Option<W>,
) -> bool {
    if nodes.contains_key(k) && nodes[k].kind == NodeKind::AsyncCompute {
        nodes[k].node_impl.starts(inputs_of(deps_keys(nodes[k]), store), out)
    } else {
        out is None
    }
}

/// `outs[i]` is what the `i`-th node of `sorted` hands out when it runs on
/// `stores[i]`.
pub open spec fn async_outs<V, W>(
    nodes: Map<NodeKey, NodeEntry<V, W>>,
    sorted: Seq<NodeKey>,
    stores: Seq<Map<NodeKey, V>>,
    outs: Seq<Option<W>>,
) -> bool {
    &&& outs.len() == sorted.len()
    &&& stores.len() >= sorted.len()
    &&& forall|i: int| 0 <= i < sorted.len() ==> #[trigger] async_out(nodes, sorted[i], stores[i], outs[i])
}

/// The work handed out, in the order of `sorted`, each with its node.
pub open spec fn spawned<W>(sorted: Seq<NodeKey>, outs: Seq<Option<W>>) -> Seq<(NodeKey, W)>
    decreases sorted.len(),
{
    if sorted.len() == 0 || outs.len() == 0 {
        seq![]
    } else {
        let rest = spawned(sorted.drop_last(), outs.drop_last());
        match outs.last() {
            Some(w) => rest.push((sorted.last(), w)),
            None => rest,
        }
    }
}

/// One more node run: its output extends the outputs and, when it is some
/// work, the work handed out.
proof fn lemma_outs_step<V, W>(
    nodes: Map<NodeKey, NodeEntry<V, W>>,
    s: Seq<NodeKey>,
    stores: Seq<Map<NodeKey, V>>,
    outs: Seq<Option<W>>,
    out: Option<W>,
)
    requires
        s.len() > 0,
        stores.len() == s.len() + 1,
        async_outs(nodes, s.drop_last(), stores.drop_last(), outs),
        async_out(nodes, s.last(), stores[s.len() - 1], out),
    ensures
        async_outs(nodes, s, stores, outs.push(out)),
        spawned(s, outs.push(out)) == (match out {
            Some(w) => spawned(s.drop_last(), outs).push((s.last(), w)),
            None => spawned(s.drop_last(), outs),
        }),
{
    let o2 = outs.push(out);
    assert(o2.drop_last() =~= outs);
    assert forall|i: int| 0 <= i < s.len() implies #[trigger] async_out(nodes, s[i], stores[i], o2[i]) by {
        if i < s.len() - 1 {
            assert(s.drop_last()[i] == s[i]);
            assert(stores.drop_last()[i] == stores[i]);
            assert(async_out(nodes, s.drop_last()[i], stores.drop_last()[i], outs[i]));
        }
    }
}

/// The spawns as pairs of node and work.
pub open spec fn spawn_pairs<W>(s: Seq<AsyncSpawn<W>>) -> Seq<(NodeKey, W)> {
    s.map_values(|x: AsyncSpawn<W>| (x.node_id@, x.work))
}

/// The attempts of a retry of the node `e`, in order: each one a result that
/// its `compute` may give on `ins`; every attempt but the last failed; and
/// the last one failed only when all `max_attempts` attempts (at least one)
/// were made.
pub open spec fn retried<V, W>(
    e: NodeEntry<V, W>,
    ins: Seq<Option<V>>,
    max_attempts: usize,
    tries: Seq<Option<V>>,
) -> bool {
    &&& 1 <= tries.len() <= if max_attempts == 0 { 1 } else { max_attempts as int }
    &&& forall|j: int| 0 <= j < tries.len() ==> e.node_impl.computes(ins, #[trigger] tries[j])
    &&& forall|j: int| 0 <= j < tries.len() - 1 ==> (#[trigger] tries[j]) is None
    &&& tries.last() is None ==> tries.len() == if max_attempts == 0 { 1 } else { max_attempts as int }
}

/// The store after the updates `ups` were written into `store`, in order.
pub open spec fn apply_updates<V>(store: Map<NodeKey, V>, ups: Seq<(NodeKey, V)>) -> Map<NodeKey, V>
    decreases ups.len(),
{
    if ups.len() == 0 {
        store
    } else {
        apply_updates(store, ups.drop_last()).insert(ups.last().0, ups.last().1)
    }
}

/// The nodes that the updates `ups` write to.
pub open spec fn updated_keys<V>(ups: Seq<(NodeKey, V)>) -> Set<NodeKey> {
    ups.map_values(|u: (NodeKey, V)| u.0).to_set()
}

/// The updates as contracts see them.
pub open spec fn updates_view<V>(ups: Seq<(NodeId, V)>) -> Seq<(NodeKey, V)> {
    ups.map_values(|u: (NodeId, V)| (u.0@, u.1))
}

/// A run of the nodes of `sorted` from one store to another touches no node
/// outside `sorted`.
pub proof fn lemma_run_frame<V, W>(
    nodes: Map<NodeKey, NodeEntry<V, W>>,
    strategies: Map<NodeKey, ErrorStrategy>,
    sorted: Seq<NodeKey>,
    trace: Seq<Map<NodeKey, V>>,
    k: NodeKey,
)
    requires
        runs_in_order(nodes, strategies, sorted, trace),
        !sorted.contains(k),
    ensures
        same_value(trace[0], trace.last(), k),
    decreases sorted.len(),
{
    if sorted.len() > 0 {
        let n = sorted.len() - 1;
        let s2 = sorted.drop_last();
        let t2 = trace.drop_last();
        assert forall|i: int| 0 <= i < s2.len() implies #[trigger] node_step(nodes, strategies, s2[i], t2[i], t2[i + 1]) by {
            assert(node_step(nodes, strategies, sorted[i], trace[i], trace[i + 1]));
        }
        assert(!s2.contains(k)) by {
            if s2.contains(k) {
                let j = choose|j: int| 0 <= j < s2.len() && s2[j] == k;
                assert(sorted[j] == k);
            }
        }
        lemma_run_frame(nodes, strategies, s2, t2, k);
        assert(node_step(nodes, strategies, sorted[n], trace[n], trace[n + 1]));
        assert(sorted[n] != k);
        let kk = sorted[n];
        if nodes.contains_key(kk) && nodes[kk].kind == NodeKind::Compute {
            let out = choose|out: Option<V>|
                nodes[kk].node_impl.computes(inputs_of(deps_keys(nodes[kk]), trace[n]), out) && trace[n + 1]
                    == compute_outcome(strategy_of(strategies, kk), trace[n], kk, out);
            lemma_insert_keys(trace[n], kk, if out is Some { out->0 } else { trace[n][kk] });
            lemma_remove_keys(trace[n], kk);
        }
    }
}

/// The nodes of `sorted` but the registered async ones, in order.
pub open spec fn sync_only<V, W>(sorted: Seq<NodeKey>, nodes: Map<NodeKey, NodeEntry<V, W>>) -> Seq<NodeKey>
    decreases sorted.len(),
{
    if sorted.len() == 0 {
        Seq::empty()
    } else {
        let rest = sync_only(sorted.drop_last(), nodes);
        let k = sorted.last();
        if nodes.contains_key(k) && nodes[k].kind == NodeKind::AsyncCompute {
            rest
        } else {
            rest.push(k)
        }
    }
}

proof fn lemma_sync_only_within<V, W>(sorted: Seq<NodeKey>, nodes: Map<NodeKey, NodeEntry<V, W>>, k: NodeKey)
    requires
        sync_only(sorted, nodes).contains(k),
    ensures
        sorted.contains(k),
    decreases sorted.len(),
{
    if sorted.len() > 0 {
        let rest = sync_only(sorted.drop_last(), nodes);
        if rest.contains(k) {
            lemma_sync_only_within(sorted.drop_last(), nodes, k);
            let j = choose|j: int| 0 <= j < sorted.drop_last().len() && sorted.drop_last()[j] == k;
            assert(sorted[j] == k);
        } else {
            assert(sorted[sorted.len() - 1] == k);
        }
    }
}

proof fn lemma_sync_only_all<V, W>(sorted: Seq<NodeKey>, nodes: Map<NodeKey, NodeEntry<V, W>>)
    requires
        forall|i: int|
            0 <= i < sorted.len() ==> !(nodes.contains_key(#[trigger] sorted[i]) && nodes[sorted[i]].kind
                == NodeKind::AsyncCompute),
    ensures
        sync_only(sorted, nodes) == sorted,
    decreases sorted.len(),
{
    if sorted.len() > 0 {
        assert forall|i: int| 0 <= i < sorted.drop_last().len() implies !(nodes.contains_key(
            #[trigger] sorted.drop_last()[i],
        ) && nodes[sorted.drop_last()[i]].kind == NodeKind::AsyncCompute) by {
            assert(sorted.drop_last()[i] == sorted[i]);
        }
        lemma_sync_only_all(sorted.drop_last(), nodes);
        assert(sorted[sorted.len() - 1] == sorted.last());
        assert(sorted.drop_last().push(sorted.last()) =~= sorted);
    }
}

proof fn lemma_sync_only_unique<V, W>(sorted: Seq<NodeKey>, nodes: Map<NodeKey, NodeEntry<V, W>>)
    requires
        sorted.no_duplicates(),
    ensures
        sync_only(sorted, nodes).no_duplicates(),
    decreases sorted.len(),
{
    if sorted.len() > 0 {
        let rest = sync_only(sorted.drop_last(), nodes);
        lemma_sync_only_unique(sorted.drop_last(), nodes);
        if rest.contains(sorted.last()) {
            lemma_sync_only_within(sorted.drop_last(), nodes, sorted.last());
            let j = choose|j: int| 0 <= j < sorted.drop_last().len() && sorted.drop_last()[j] == sorted.last();
            assert(sorted[j] == sorted[sorted.len() - 1]);
        }
    }
}

proof fn lemma_write_outputs_frame<V>(store: Map<NodeKey, V>, wave: Seq<NodeKey>, outs: Seq<Option<V>>, k: NodeKey)
    requires
        !wave.contains(k),
    ensures
        same_value(store, write_outputs(store, wave, outs), k),
    decreases wave.len(),
{
    if wave.len() > 0 && outs.len() > 0 {
        assert(!wave.drop_last().contains(k)) by {
            if wave.drop_last().contains(k) {
                let j = choose|j: int| 0 <= j < wave.drop_last().len() && wave.drop_last()[j] == k;
                assert(wave[j] == k);
            }
        }
        lemma_write_outputs_frame(store, wave.drop_last(), outs.drop_last(), k);
        assert(wave[wave.len() - 1] != k);
        let s1 = write_outputs(store, wave.drop_last(), outs.drop_last());
        match outs.last() {
            Some(v) => {
                lemma_insert_keys(s1, wave.last(), v);
            },
            None => {},
        }
    }
}

/// Waves run over positions of `sorted` touch no node outside `sorted`.
pub proof fn lemma_waves_frame<V, W>(
    nodes: Map<NodeKey, NodeEntry<V, W>>,
    sorted: Seq<NodeKey>,
    waves: Seq<Seq<int>>,
    trace: Seq<Map<NodeKey, V>>,
    k: NodeKey,
)
    requires
        runs_in_waves(nodes, sorted, waves, trace),
        !sorted.contains(k),
    ensures
        same_value(trace[0], trace.last(), k),
    decreases waves.len(),
{
    if waves.len() > 0 {
        let n = waves.len() - 1;
        let w2 = waves.drop_last();
        let t2 = trace.drop_last();
        assert(waves =~= w2.push(waves[n]));
        w2.lemma_flatten_push(waves[n]);
        assert(w2.flatten().no_duplicates()) by {
            assert forall|a: int, b: int| 0 <= a < b < w2.flatten().len() implies w2.flatten()[a] != w2.flatten()[b] by {
                assert(waves.flatten()[a] == w2.flatten()[a]);
                assert(waves.flatten()[b] == w2.flatten()[b]);
            }
        }
        assert forall|w: int| 0 <= w < w2.len() implies #[trigger] wave_step(nodes, wave_nodes(sorted, w2[w]), t2[w], t2[w + 1]) by {
            assert(wave_step(nodes, wave_nodes(sorted, waves[w]), trace[w], trace[w + 1]));
        }
        assert forall|w: int, i: int| 0 <= w < w2.len() && 0 <= i < w2[w].len() implies 0 <= #[trigger] w2[w][i] < sorted.len() by {
            assert(0 <= waves[w][i] < sorted.len());
        }
        lemma_waves_frame(nodes, sorted, w2, t2, k);
        assert(wave_step(nodes, wave_nodes(sorted, waves[n]), trace[n], trace[n + 1]));
        let wn = wave_nodes(sorted, waves[n]);
        let outs = choose|outs: Seq<Option<V>>|
            outs.len() == wn.len() && (forall|i: int|
                0 <= i < wn.len() ==> #[trigger] single_output(nodes, wn[i], trace[n], outs[i])) && trace[n + 1]
                == write_outputs(trace[n], wn, outs);
        assert(!wn.contains(k)) by {
            if wn.contains(k) {
                let j = choose|j: int| 0 <= j < wn.len() && wn[j] == k;
                assert(0 <= waves[n][j] < sorted.len());
                assert(sorted[waves[n][j]] == k);
            }
        }
        lemma_write_outputs_frame(trace[n], wn, outs, k);
    }
}

/// What a cycle run on `updates` from `before` to `after` did, with the dirty
/// nodes run in the order `sorted`: the updates were written; `sorted`
/// holds dirty nodes, each once, dependencies first where the topology
/// records its edges both ways, and every dirty node where moreover it has
/// no cycle; a sequential run ran them one after the other, a parallel run
/// ran all but the async ones in waves, each after the dirty nodes it depends
/// on where the topology records its edges both ways, and all of them there
/// when none is async; one more cycle
/// was recorded, counting the nodes of `sorted`, with a time for each
/// registered one in a sequential run and none in a parallel run; and the
/// async manager was handed, in the order of `sorted`, the work that each
/// async node of `sorted` gave when it ran (in a sequential run on the store
/// of its turn, in a parallel run on the store the waves left), each with
/// its node's policy and group; and, in a sequential run, each registered
/// sink of `sorted` was called once, in order, with the values of its
/// dependencies in the store of its turn, and in a parallel run wave after
/// wave, with the values from before its wave; each compute node of
/// `sorted` had its computation invoked at most once in a parallel run,
/// and once, or as often as it was retried, in a sequential run.
pub open spec fn cycle_ran<V, W>(
    before: &Engine<V, W>,
    after: &Engine<V, W>,
    ups: Seq<(NodeKey, V)>,
    parallel: bool,
    sorted: Seq<NodeKey>,
) -> bool {
    let s1 = apply_updates(before.graph.values(), ups);
    let dirty = before.topology.dirty_of(updated_keys(ups));
    let nodes = before.graph.nodes();
    &&& sorted.no_duplicates()
    &&& forall|i: int| 0 <= i < sorted.len() ==> dirty.contains(#[trigger] sorted[i])
    &&& before.topology.consistent_on(dirty) ==> before.topology.in_dependency_order(sorted, dirty)
    &&& before.topology.consistent_on(dirty) && (exists|rank: spec_fn(NodeKey) -> nat|
        before.topology.ranked_on(dirty, rank)) ==> forall|k: NodeKey|
        dirty.contains(k) ==> #[trigger] sorted.contains(k)
    &&& !parallel ==> exists|trace: Seq<Map<NodeKey, V>>|
        #![trigger runs_in_order(nodes, before.error_strategies.view(), sorted, trace)]
        runs_in_order(nodes, before.error_strategies.view(), sorted, trace) && trace[0] == s1
            && trace.last() == after.graph.values()
    &&& parallel ==> exists|waves: Seq<Seq<int>>, trace: Seq<Map<NodeKey, V>>|
        #![trigger runs_in_waves(nodes, sync_only(sorted, nodes), waves, trace)]
        runs_in_waves(nodes, sync_only(sorted, nodes), waves, trace) && trace[0] == s1
            && trace.last() == after.graph.values()
            && after.emissions@ == before.emissions@ + wave_sink_calls(nodes, sync_only(sorted, nodes), waves, trace)
            && after.computed@ == before.computed@ + wave_computes(nodes, sync_only(sorted, nodes), waves)
            && wave_computes(nodes, sync_only(sorted, nodes), waves).no_duplicates()
            && (before.topology.consistent_on(dirty)
            ==> waves_in_order(&before.topology, sync_only(sorted, nodes), waves, dirty)) && (
        before.topology.consistent_on(dirty) && (forall|i: int|
            0 <= i < sorted.len() ==> !(nodes.contains_key(#[trigger] sorted[i]) && nodes[sorted[i]].kind
                == NodeKind::AsyncCompute)) ==> forall|p: int| 0 <= p < sorted.len() ==> #[trigger] runs_at(waves, p))
    &&& after.metrics.cycles() == before.metrics.cycles() + 1
    &&& after.metrics.last() is Some
    &&& after.metrics.last()->0.cycle_id == before.metrics.cycles() + 1
    &&& after.metrics.last()->0.nodes_computed == sorted.len()
    &&& !parallel ==> after.metrics.last()->0.timed_nodes() == registered_only(sorted, nodes)
    &&& parallel ==> after.metrics.last()->0.timed_nodes().len() == 0
    &&& exists|sp: Seq<(NodeKey, W, AsyncPolicy, Option<usize>)>|
        #![trigger after_spawns(before.async_manager.model(), sp)]
        after.async_manager.model() == after_spawns(before.async_manager.model(), sp) && (forall|i: int|
            0 <= i < sp.len() ==> {
                &&& sorted.contains(#[trigger] sp[i].0)
                &&& nodes.contains_key(sp[i].0)
                &&& nodes[sp[i].0].kind == NodeKind::AsyncCompute
                &&& sp[i].2 == nodes[sp[i].0].node_impl.chosen_policy()
                &&& sp[i].3 == nodes[sp[i].0].node_impl.chosen_group()
            }) && (!parallel ==> exists|trace: Seq<Map<NodeKey, V>>, outs: Seq<Option<W>>|
            #![trigger async_outs(nodes, sorted, trace, outs)]
            runs_in_order(nodes, before.error_strategies.view(), sorted, trace) && trace[0] == s1
                && trace.last() == after.graph.values() && async_outs(nodes, sorted, trace, outs)
                && sp.map_values(|x: (NodeKey, W, AsyncPolicy, Option<usize>)| (x.0, x.1)) == spawned(sorted, outs)
                && after.emissions@ == before.emissions@ + sink_calls(nodes, sorted, trace))
            && (!parallel ==> exists|counts: Seq<nat>|
            #[trigger] attempt_counts(nodes, before.error_strategies.view(), sorted, counts) && after.computed@
                == before.computed@ + invoked_each(sorted, counts))
            && (parallel ==> exists|outs: Seq<Option<W>>|
            #![trigger spawned(sorted, outs)]
            async_outs(nodes, sorted, Seq::new(sorted.len() + 1, |j: int| after.graph.values()), outs)
                && sp.map_values(|x: (NodeKey, W, AsyncPolicy, Option<usize>)| (x.0, x.1)) == spawned(sorted, outs))
}

/// `p` is a chain of registered nodes, each one a dependency of the one
/// before it.
pub open spec fn is_dep_path<V, W>(nodes: Map<NodeKey, NodeEntry<V, W>>, p: Seq<NodeKey>) -> bool {
    forall|j: int|
        #![trigger p[j]]
        0 <= j < p.len() - 1 ==> nodes.contains_key(p[j]) && deps_keys(nodes[p[j]]).contains(p[j + 1])
}

/// `b` is reached from `a` by following dependencies one or more times.
pub open spec fn upstream_of<V, W>(nodes: Map<NodeKey, NodeEntry<V, W>>, a: NodeKey, b: NodeKey) -> bool {
    exists|p: Seq<NodeKey>| #![trigger is_dep_path(nodes, p)] p.len() >= 2 && p[0] == a && p.last() == b && is_dep_path(nodes, p)
}

/// A chain through a registry that keeps its entries' dependencies in a
/// larger one, reached from one more node, is a chain there too.
proof fn lemma_upstream_extend<V, W>(
    big: Map<NodeKey, NodeEntry<V, W>>,
    small: Map<NodeKey, NodeEntry<V, W>>,
    k: NodeKey,
    d: NodeKey,
    x: NodeKey,
)
    requires
        forall|y: NodeKey| #[trigger]
            small.contains_key(y) ==> big.contains_key(y) && small[y].deps == big[y].deps,
        big.contains_key(k),
        deps_keys(big[k]).contains(d),
        x == d || upstream_of(small, d, x),
    ensures
        upstream_of(big, k, x),
{
    if x == d {
        let p = seq![k, d];
        assert(is_dep_path(big, p)) by {
            assert forall|j: int| #![trigger p[j]] 0 <= j < p.len() - 1 implies big.contains_key(p[j]) && deps_keys(
                big[p[j]],
            ).contains(p[j + 1]) by {
                assert(j == 0);
            }
        }
    } else {
        let p = choose|p: Seq<NodeKey>| #![trigger is_dep_path(small, p)]
            p.len() >= 2 && p[0] == d && p.last() == x && is_dep_path(small, p);
        let q = seq![k] + p;
        assert(is_dep_path(big, q)) by {
            assert forall|j: int| #![trigger q[j]] 0 <= j < q.len() - 1 implies big.contains_key(q[j]) && deps_keys(
                big[q[j]],
            ).contains(q[j + 1]) by {
                if j == 0 {
                    assert(q[1] == d);
                } else {
                    let jj = j - 1;
                    assert(q[j] == p[jj]);
                    assert(q[j + 1] == p[jj + 1]);
                    assert(small.contains_key(p[jj]) && deps_keys(small[p[jj]]).contains(p[jj + 1]));
                }
            }
        }
        assert(q.last() == x);
    }
}

/// A chain through a registry that keeps its entries' dependencies in a
/// larger one is a chain there too.
proof fn lemma_upstream_shrink<V, W>(
    big: Map<NodeKey, NodeEntry<V, W>>,
    small: Map<NodeKey, NodeEntry<V, W>>,
    a: NodeKey,
    x: NodeKey,
)
    requires
        forall|y: NodeKey| #[trigger]
            small.contains_key(y) ==> big.contains_key(y) && small[y].deps == big[y].deps,
        upstream_of(small, a, x),
    ensures
        upstream_of(big, a, x),
{
    let p = choose|p: Seq<NodeKey>| #![trigger is_dep_path(small, p)]
        p.len() >= 2 && p[0] == a && p.last() == x && is_dep_path(small, p);
    assert(is_dep_path(big, p)) by {
        assert forall|j: int| #![trigger p[j]] 0 <= j < p.len() - 1 implies big.contains_key(p[j]) && deps_keys(
            big[p[j]],
        ).contains(p[j + 1]) by {
            assert(small.contains_key(p[j]));
        }
    }
}

/// What is left of a node with `rc` references once it was released `c`
/// times: untouched when never released; otherwise one reference less per
/// release, gone when none is left.
pub open spec fn kept_count<V, W>(rc: usize, c: nat, after: Map<NodeKey, NodeEntry<V, W>>, k: NodeKey) -> bool {
    &&& c == 0 ==> after.contains_key(k) && after[k].ref_count == rc
    &&& c > 0 ==> (after.contains_key(k) <==> rc > c) && (after.contains_key(k) ==> after[k].ref_count == rc - c)
}

/// The keys that `lists` release, in the order a drain gives them up: list
/// after list, each from its last entry to its first.
pub open spec fn release_order(lists: Seq<Vec<NodeId>>) -> Seq<NodeKey>
    decreases lists.len(),
{
    if lists.len() == 0 {
        Seq::empty()
    } else {
        release_order(lists.drop_last()) + ids_view(lists.last()@).reverse()
    }
}

/// A cycle on the updates `ups`: nothing happens without updates; with some,
/// the cycle ran on them (see `cycle_ran`) and every node outside their
/// dirty set keeps the value that the updates left it.
pub open spec fn cycle_on<V, W>(
    before: &Engine<V, W>,
    after: &Engine<V, W>,
    ups: Seq<(NodeKey, V)>,
    parallel: bool,
) -> bool {
    &&& ups.len() == 0 ==> *after == *before
    &&& ups.len() > 0 ==> exists|sorted: Seq<NodeKey>| #[trigger] cycle_ran(before, after, ups, parallel, sorted)
    &&& ups.len() > 0 ==> forall|k: NodeKey|
        !before.topology.dirty_of(updated_keys(ups)).contains(k) ==> #[trigger] same_value(
            apply_updates(before.graph.values(), ups),
            after.graph.values(),
            k,
        )
}

/// A cycle on what has arrived and on the updates `given`: the async manager
/// recorded the completions `ks` of the results that came, then a cycle ran
/// on the source updates that came, followed by `given`, followed by those
/// results.
pub open spec fn cycle_on_arrivals<V, W>(
    before: &Engine<V, W>,
    after: &Engine<V, W>,
    given: Seq<(NodeKey, V)>,
    parallel: bool,
) -> bool {
    exists|mid: Engine<V, W>, ks: Seq<NodeKey>, ups: Seq<(NodeKey, V)>|
        #![trigger cycle_on(&mid, after, ups, parallel), after_completions(before.async_manager.model(), ks)]
        mid.graph == before.graph && mid.topology == before.topology && mid.guards == before.guards
            && mid.active == before.active && mid.error_strategies == before.error_strategies
            && mid.metrics == before.metrics && mid.pending_removals == before.pending_removals
            && mid.emissions == before.emissions && mid.computed == before.computed
            && mid.async_manager.model() == after_completions(before.async_manager.model(), ks)
            && ks.len() + given.len() <= ups.len() && ups.skip(ups.len() - ks.len()).map_values(
            |u: (NodeKey, V)| u.0,
        ) == ks && ups.subrange(ups.len() - ks.len() - given.len(), ups.len() - ks.len()) == given
            && cycle_on(&mid, after, ups, parallel)
}

/// The engine owns the graph and topology, and runs propagation cycles.
#[verifier::reject_recursive_types(V)]
#[verifier::reject_recursive_types(W)]
pub struct Engine<V, W = ()> {
    pub graph: Graph<V, W>,
    pub topology: Topology,
    /// Guards returned by source activation (dropped on deactivation).
    pub guards: IdMap<Box<dyn ActivationGuard>>,
    /// Set of currently active nodes.
    pub active: IdSet,
    /// Decides what async work runs.
    pub async_manager: AsyncManager<V, W>,
    /// Per-node error strategies.
    pub error_strategies: IdMap<ErrorStrategy>,
    /// Metrics collector.
    pub metrics: MetricsCollector,
    /// Node lists of released subgraphs, deactivated at the next call.
    pub pending_removals: Vec<Vec<NodeId>>,
    /// The sinks called so far, each with the values of its dependencies.
    pub emissions: Ghost<Seq<(NodeKey, Seq<Option<V>>)>>,
    /// The nodes whose computation was invoked so far, once per invocation.
    pub computed: Ghost<Seq<NodeKey>>,
}

impl<V, W> Engine<V, W> {
    /// The parts are well formed; the active nodes are exactly those in the
    /// topology, each registered with the dependencies the topology records;
    /// guards are held only for active sources.
    pub open spec fn wf(&self) -> bool {
        &&& self.graph.wf()
        &&& self.topology.wf()
        &&& self.guards.wf()
        &&& self.active.wf()
        &&& self.async_manager.wf()
        &&& self.error_strategies.wf()
        &&& self.active@ == self.topology.deps_view().dom()
        &&& forall|k: NodeKey| #[trigger]
            self.active@.contains(k) ==> {
                &&& self.graph.nodes().contains_key(k)
                &&& self.topology.deps_view()[k] == deps_keys(self.graph.nodes()[k])
            }
        &&& forall|k: NodeKey| #[trigger]
            self.guards.view().contains_key(k) ==> self.active@.contains(k)
                && self.graph.nodes()[k].kind == NodeKind::Source
    }

    /// Nodes that are active in `after` and were not in `self`.
    pub open spec fn newly_active(&self, after: &Self, k: NodeKey) -> bool {
        after.active@.contains(k) && !self.active@.contains(k)
    }

    /// What activation may change from `self` to `after`: nodes only become
    /// active, and only registered ones; the registry keeps its shape; a
    /// value changes only for a newly active compute node, a guard appears
    /// only for a newly active source; the rest is untouched.
    pub open spec fn activation_frame(&self, after: &Self) -> bool {
        &&& same_registry(self.graph.nodes(), after.graph.nodes())
        &&& self.active@.subset_of(after.active@)
        &&& forall|k: NodeKey| #[trigger]
            after.active@.contains(k) ==> self.graph.nodes().contains_key(k)
        &&& forall|k: NodeKey| #[trigger]
            same_value(self.graph.values(), after.graph.values(), k) || (self.newly_active(after, k)
                && self.graph.nodes()[k].kind == NodeKind::Compute)
        &&& forall|k: NodeKey| #[trigger]
            after.guards.view().contains_key(k) ==> self.guards.view().contains_key(k) || (
            self.newly_active(after, k) && self.graph.nodes()[k].kind == NodeKind::Source)
        &&& forall|k: NodeKey| #[trigger]
            self.guards.view().contains_key(k) ==> after.guards.view().contains_key(k)
        &&& after.error_strategies == self.error_strategies
        &&& after.metrics == self.metrics
        &&& after.async_manager == self.async_manager
        &&& after.pending_removals == self.pending_removals
        &&& after.emissions == self.emissions
        &&& after.graph.source_tx == self.graph.source_tx
        &&& after.graph.source_rx == self.graph.source_rx
    }

    /// `rank` strictly grows from each registered dependency to the
    /// registered node that depends on it: the registry has no cycle.
    pub open spec fn registry_ranked(&self, rank: spec_fn(NodeKey) -> nat) -> bool {
        forall|x: NodeKey, d: NodeKey|
            self.graph.nodes().contains_key(x) && self.graph.nodes().contains_key(d)
                && #[trigger] deps_keys(self.graph.nodes()[x]).contains(d) ==> rank(d) < rank(x)
    }

    /// The value that activation from `self` to `after` leaves for the
    /// compute node `k`: where all its dependencies have values in `after`,
    /// one that `k` computes from them, or its old value where it computes
    /// none; otherwise its old value.
    pub open spec fn initial_value(&self, after: &Self, k: NodeKey) -> bool {
        let e = self.graph.nodes()[k];
        let deps = deps_keys(e);
        let vals = after.graph.values();
        if forall|i: int| 0 <= i < deps.len() ==> vals.contains_key(#[trigger] deps[i]) {
            exists|out: Option<V>|
                #[trigger] e.node_impl.computes(inputs_of(deps, vals), out) && (match out {
                    Some(v) => vals.contains_key(k) && vals[k] == v,
                    None => same_value(self.graph.values(), vals, k),
                })
        } else {
            same_value(self.graph.values(), vals, k)
        }
    }

    proof fn lemma_ranked_kept(a: &Self, b: &Self, rank: spec_fn(NodeKey) -> nat)
        requires
            a.registry_ranked(rank),
            same_registry(a.graph.nodes(), b.graph.nodes()),
        ensures
            b.registry_ranked(rank),
    {
        assert forall|x: NodeKey, d: NodeKey|
            b.graph.nodes().contains_key(x) && b.graph.nodes().contains_key(d)
                && #[trigger] deps_keys(b.graph.nodes()[x]).contains(d) implies rank(d) < rank(x) by {
            assert(a.graph.nodes().contains_key(x));
            assert(deps_keys(a.graph.nodes()[x]) == deps_keys(b.graph.nodes()[x]));
        }
    }

    /// What activation left for `x` stays when neither `x` nor any of its
    /// dependencies changes value.
    proof fn lemma_initial_value_moved(a: &Self, b: &Self, c: &Self, x: NodeKey)
        requires
            a.initial_value(b, x),
            same_value(b.graph.values(), c.graph.values(), x),
            forall|d: NodeKey|
                #[trigger] deps_keys(a.graph.nodes()[x]).contains(d) ==> same_value(
                    b.graph.values(),
                    c.graph.values(),
                    d,
                ),
        ensures
            a.initial_value(c, x),
    {
        let deps = deps_keys(a.graph.nodes()[x]);
        assert forall|i: int| 0 <= i < deps.len() implies same_value(
            b.graph.values(),
            c.graph.values(),
            #[trigger] deps[i],
        ) by {
            assert(deps.contains(deps[i]));
        }
        assert(inputs_of(deps, b.graph.values()) =~= inputs_of(deps, c.graph.values()));
    }

    /// What activation from `a` left for `x` in `b` stays through a later
    /// activation from `b`, once `x` and its registered dependencies are active.
    proof fn lemma_initial_value_kept(a: &Self, b: &Self, c: &Self, x: NodeKey)
        requires
            a.initial_value(b, x),
            same_registry(a.graph.nodes(), b.graph.nodes()),
            b.active@.contains(x),
            forall|d: NodeKey|
                #[trigger] deps_keys(a.graph.nodes()[x]).contains(d) && a.graph.nodes().contains_key(d)
                    ==> b.active@.contains(d),
            b.activation_frame(c),
        ensures
            a.initial_value(c, x),
    {
        assert(same_value(b.graph.values(), c.graph.values(), x));
        assert forall|d: NodeKey| #[trigger] deps_keys(a.graph.nodes()[x]).contains(d) implies same_value(
            b.graph.values(),
            c.graph.values(),
            d,
        ) by {
            if !same_value(b.graph.values(), c.graph.values(), d) {
                assert(b.newly_active(c, d));
                assert(b.graph.nodes().contains_key(d));
            }
        }
        Self::lemma_initial_value_moved(a, b, c, x);
    }

    /// What activation from `b` left for a compute node `x` that `b` did not
    /// have active also counts from an earlier `a`.
    proof fn lemma_initial_value_from(a: &Self, b: &Self, c: &Self, x: NodeKey)
        requires
            b.initial_value(c, x),
            a.activation_frame(b),
            !b.active@.contains(x),
            a.graph.nodes().contains_key(x),
            a.graph.nodes()[x].kind == NodeKind::Compute,
        ensures
            a.initial_value(c, x),
    {
        assert(b.graph.nodes()[x] == a.graph.nodes()[x]);
        assert(same_value(a.graph.values(), b.graph.values(), x));
    }

    /// What activating the sink `sink` does from `self` to `after`: only
    /// activation happens (see `activation_frame`); the sink, when
    /// registered, is active, and so is every registered dependency of a node
    /// that became active; in an acyclic registry a newly active compute node
    /// gets its first value; a newly active source keeps a guard exactly when
    /// its implementation gives one.
    pub open spec fn sink_activated(&self, after: &Self, sink: NodeKey) -> bool {
        &&& self.activation_frame(after)
        &&& self.activation_closed(after)
        &&& self.graph.nodes().contains_key(sink) ==> after.active@.contains(sink)
        &&& (exists|rank: spec_fn(NodeKey) -> nat| self.registry_ranked(rank)) ==> forall|x: NodeKey|
            #[trigger] self.newly_active(after, x) && self.graph.nodes()[x].kind == NodeKind::Compute
                ==> self.initial_value(after, x)
        &&& forall|x: NodeKey| #[trigger]
            self.newly_active(after, x) && self.graph.nodes()[x].kind == NodeKind::Source
                ==> (after.guards.view().contains_key(x) <==> self.graph.nodes()[x].node_impl.gives_guard())
    }

    /// Every newly active node has all its registered dependencies active.
    pub open spec fn activation_closed(&self, after: &Self) -> bool {
        forall|j: NodeKey, d: NodeKey|
            #![trigger self.newly_active(after, j), deps_keys(self.graph.nodes()[j]).contains(d)]
            self.newly_active(after, j) && deps_keys(self.graph.nodes()[j]).contains(d)
                && self.graph.nodes().contains_key(d) ==> after.active@.contains(d)
    }

    /// What a cycle run with `run_cycle` or `run_cycle_parallel` leaves,
    /// whatever has arrived: the released subgraphs are drained first (see
    /// `drained`), so a registered node loses one reference per release and
    /// a released node that no other registration holds is gone, and only
    /// released nodes go; no node joins the registry; with nothing released,
    /// the registry and the active set stay.
    pub open spec fn ran_cycle(&self, after: &Self) -> bool {
        &&& after.wf()
        &&& after.pending_removals@.len() == 0
        &&& after.graph.nodes().dom().subset_of(self.graph.nodes().dom())
        &&& forall|k: NodeKey| #[trigger]
            self.pending_names(k) && self.graph.nodes().contains_key(k) && self.graph.nodes()[k].ref_count <= 1
                ==> !after.graph.nodes().contains_key(k) && !after.active@.contains(k)
        &&& forall|x: NodeKey| #[trigger] self.gone(after, x) ==> self.pending_names(x)
        &&& forall|k: NodeKey| #[trigger]
            self.graph.nodes().contains_key(k) ==> kept_count(
                self.graph.nodes()[k].ref_count,
                count_of(release_order(self.pending_removals@), k),
                after.graph.nodes(),
                k,
            )
        &&& self.pending_removals@.len() == 0 ==> after.graph.nodes() == self.graph.nodes() && after.active
            == self.active
    }

    /// What draining the released subgraphs leaves: nothing queued; every
    /// registered node has lost one reference per time it was released, and
    /// left the registry when none was left; only released nodes leave.
    pub open spec fn drained(&self, after: &Self) -> bool {
        &&& after.wf()
        &&& self.removal_frame(after)
        &&& after.pending_removals@.len() == 0
        &&& self.pending_removals@.len() == 0 ==> *after == *self
        &&& forall|k: NodeKey| #[trigger]
            self.graph.nodes().contains_key(k) ==> kept_count(
                self.graph.nodes()[k].ref_count,
                count_of(release_order(self.pending_removals@), k),
                after.graph.nodes(),
                k,
            )
        &&& forall|k: NodeKey| #[trigger]
            self.pending_names(k) && self.graph.nodes().contains_key(k) && self.graph.nodes()[k].ref_count <= 1
                ==> !after.graph.nodes().contains_key(k)
        &&& forall|x: NodeKey| #[trigger] self.gone(after, x) ==> self.pending_names(x)
    }

    /// `k` is named in one of the lists of released subgraphs.
    pub open spec fn pending_names(&self, k: NodeKey) -> bool {
        exists|i: int, j: int|
            0 <= i < self.pending_removals@.len() && 0 <= j < self.pending_removals@[i]@.len()
                && #[trigger] self.pending_removals@[i]@[j]@ == k
    }

    /// `k` was registered in `self` and is not in `after`.
    pub open spec fn gone(&self, after: &Self, k: NodeKey) -> bool {
        self.graph.nodes().contains_key(k) && !after.graph.nodes().contains_key(k)
    }

    /// What deactivation may change from `self` to `after`: nodes only leave
    /// the registry; a node that stays keeps its entry but for a reference
    /// count that may only drop; a node that leaves loses its activity, value,
    /// guard and error strategy; everything else is untouched.
    pub open spec fn deactivation_frame(&self, after: &Self) -> bool {
        &&& self.removal_frame(after)
        &&& after.pending_removals == self.pending_removals
    }

    /// The part of `deactivation_frame` that leaves the queue of pending
    /// removals out.
    pub open spec fn removal_frame(&self, after: &Self) -> bool {
        &&& after.graph.nodes().dom().subset_of(self.graph.nodes().dom())
        &&& forall|k: NodeKey| #[trigger]
            after.graph.nodes().contains_key(k) ==> {
                &&& after.graph.nodes()[k].id == self.graph.nodes()[k].id
                &&& after.graph.nodes()[k].kind == self.graph.nodes()[k].kind
                &&& after.graph.nodes()[k].deps == self.graph.nodes()[k].deps
                &&& after.graph.nodes()[k].node_impl == self.graph.nodes()[k].node_impl
                &&& after.graph.nodes()[k].ref_count <= self.graph.nodes()[k].ref_count
            }
        &&& forall|k: NodeKey| #[trigger]
            self.gone(after, k) ==> {
                &&& !after.graph.values().contains_key(k)
                &&& !after.active@.contains(k)
                &&& !after.guards.view().contains_key(k)
                &&& !after.error_strategies.view().contains_key(k)
            }
        &&& forall|k: NodeKey| #[trigger]
            after.graph.nodes().contains_key(k) || !self.graph.nodes().contains_key(k) ==> {
                &&& same_value(self.graph.values(), after.graph.values(), k)
                &&& after.active@.contains(k) == self.active@.contains(k)
                &&& after.guards.view().contains_key(k) == self.guards.view().contains_key(k)
                &&& same_value(self.error_strategies.view(), after.error_strategies.view(), k)
            }
        &&& after.metrics == self.metrics
        &&& after.async_manager == self.async_manager
        &&& after.emissions == self.emissions
        &&& after.computed == self.computed
        &&& after.graph.source_tx == self.graph.source_tx
        &&& after.graph.source_rx == self.graph.source_rx
    }

    proof fn lemma_deactivation_trans(a: &Self, b: &Self, c: &Self)
        requires
            a.removal_frame(b),
            b.removal_frame(c),
        ensures
            a.removal_frame(c),
    {
        assert forall|k: NodeKey| #[trigger] a.gone(c, k) implies {
            &&& !c.graph.values().contains_key(k)
            &&& !c.active@.contains(k)
            &&& !c.guards.view().contains_key(k)
            &&& !c.error_strategies.view().contains_key(k)
        } by {
            if b.graph.nodes().contains_key(k) {
                assert(b.gone(c, k));
            } else {
                assert(a.gone(b, k));
            }
        }
        assert forall|k: NodeKey| #[trigger]
            c.graph.nodes().contains_key(k) || !a.graph.nodes().contains_key(k) implies {
            &&& same_value(a.graph.values(), c.graph.values(), k)
            &&& c.active@.contains(k) == a.active@.contains(k)
            &&& c.guards.view().contains_key(k) == a.guards.view().contains_key(k)
            &&& same_value(a.error_strategies.view(), c.error_strategies.view(), k)
        } by {
            if c.graph.nodes().contains_key(k) {
                assert(b.graph.nodes().contains_key(k));
            } else {
                assert(!b.graph.nodes().contains_key(k));
            }
        }
    }

    /// Give up one reference to a node: one reference less; at none the node
    /// leaves the registry with its activity, value, guard and error strategy,
    /// and its dependencies come back. No other node is touched.
    fn drop_reference(&mut self, id: &NodeId) -> (r: Option<Vec<NodeId>>)
        requires
            old(self).wf(),
        ensures
            final(self).wf(),
            old(self).deactivation_frame(&*final(self)),
            !old(self).graph.nodes().contains_key(id@) ==> *final(self) == *old(self) && r is None,
            old(self).graph.nodes().contains_key(id@) && old(self).graph.nodes()[id@].ref_count > 1
                ==> {
                &&& final(self).graph.nodes() == old(self).graph.nodes().insert(
                    id@,
                    (NodeEntry {
                        ref_count: (old(self).graph.nodes()[id@].ref_count - 1) as usize,
                        ..old(self).graph.nodes()[id@]
                    }),
                )
                &&& final(self).graph.values() == old(self).graph.values()
                &&& final(self).active == old(self).active
                &&& final(self).guards == old(self).guards
                &&& final(self).error_strategies == old(self).error_strategies
                &&& final(self).topology == old(self).topology
                &&& r is None
            },
            old(self).graph.nodes().contains_key(id@) && old(self).graph.nodes()[id@].ref_count <= 1 ==> {
                &&& final(self).graph.nodes() == old(self).graph.nodes().remove(id@)
                &&& r is Some
                &&& ids_view(r->0@) == deps_keys(old(self).graph.nodes()[id@])
            },
    {
        let ghost k = id@;
        let ghost n0 = self.graph.nodes();
        if !self.graph.entries.contains(id) {
            return None;
        }
        let (deps, kind) = match self.graph.entries.remove(id) {
            None => {
                return None;
            },
            Some(mut e) => {
                if e.ref_count > 1 {
                    e.ref_count = e.ref_count - 1;
                    let ghost e1 = e;
                    self.graph.entries.insert(id.clone(), e);
                    proof {
                        lemma_remove_keys(n0, k);
                        lemma_insert_keys(n0.remove(k), k, e1);
                        assert(self.graph.nodes() =~= n0.insert(k, e1));
                        lemma_insert_keys(n0, k, e1);
                    }
                    return None;
                }
                (e.deps, e.kind)
            },
        };
        proof {
            lemma_remove_keys(n0, k);
        }
        if kind == NodeKind::Source {
            self.guards.remove(id);
        }
        let ghost vm = self.graph.values();
        self.graph.value_store.remove(id);
        self.topology.remove_node(id);
        self.active.remove(id);
        let ghost sm = self.error_strategies.view();
        self.error_strategies.remove(id);
        let ghost mid = *self;
        proof {
            lemma_remove_keys(vm, k);
            lemma_remove_keys(sm, k);
            lemma_remove_keys(old(self).guards.view(), k);
            lemma_remove_keys(old(self).topology.deps_view(), k);
            assert(self.active@ =~= self.topology.deps_view().dom());
            assert(old(self).deactivation_frame(&mid));
            assert(self.wf());
            assert(self.graph.nodes() =~= n0.remove(k));
        }
        Some(deps)
    }

    /// Deactivate a node: one reference less; at none the node leaves the
    /// registry with its activity, value, guard and error strategy, and its
    /// dependencies are deactivated in turn (the registry that results is
    /// `released`).
    pub fn deactivate_node(&mut self, id: &NodeId)
        requires
            old(self).wf(),
        ensures
            final(self).wf(),
            old(self).deactivation_frame(&*final(self)),
            !old(self).graph.nodes().contains_key(id@) ==> *final(self) == *old(self),
            old(self).graph.nodes().contains_key(id@) && old(self).graph.nodes()[id@].ref_count > 1
                ==> {
                &&& final(self).graph.nodes() == old(self).graph.nodes().insert(
                    id@,
                    (NodeEntry {
                        ref_count: (old(self).graph.nodes()[id@].ref_count - 1) as usize,
                        ..old(self).graph.nodes()[id@]
                    }),
                )
                &&& final(self).graph.values() == old(self).graph.values()
                &&& final(self).active == old(self).active
                &&& final(self).guards == old(self).guards
                &&& final(self).error_strategies == old(self).error_strategies
                &&& final(self).topology == old(self).topology
            },
            old(self).graph.nodes().contains_key(id@) && old(self).graph.nodes()[id@].ref_count <= 1
                ==> old(self).gone(&*final(self), id@),
            old(self).graph.nodes().contains_key(id@) && old(self).graph.nodes()[id@].ref_count <= 1
                ==> forall|d: NodeKey|
                #[trigger] deps_keys(old(self).graph.nodes()[id@]).contains(d) && old(self).graph.nodes().contains_key(d)
                    && old(self).graph.nodes()[d].ref_count <= 1 ==> !final(self).graph.nodes().contains_key(d),
            forall|x: NodeKey| #[trigger]
                old(self).gone(&*final(self), x) ==> x == id@ || upstream_of(old(self).graph.nodes(), id@, x),
            forall|fuel: nat|
                fuel > old(self).graph.nodes().dom().len() ==> final(self).graph.nodes() == #[trigger] released(
                    old(self).graph.nodes(),
                    id@,
                    fuel,
                ),
        decreases old(self).graph.nodes().dom().len(),
    {
        let ghost k = id@;
        let ghost n0 = self.graph.nodes();
        let deps = match self.drop_reference(id) {
            None => {
                return;
            },
            Some(deps) => deps,
        };
        proof {
            assert forall|x: NodeKey| #[trigger] old(self).gone(&*self, x) implies x == k by {}
            assert forall|fuel: nat| fuel > n0.dom().len() implies #[trigger] released(n0, k, fuel) == released_all(
                self.graph.nodes(),
                ids_view(deps@).skip(0),
                (fuel - 1) as nat,
            ) by {
                assert(ids_view(deps@).skip(0) =~= deps_keys(n0[k]));
            }
        }
        let mut i: usize = 0;
        while i < deps.len()
            invariant
                self.wf(),
                old(self).wf(),
                i <= deps@.len(),
                old(self).deactivation_frame(&*self),
                old(self).gone(&*self, k),
                ids_view(deps@) == deps_keys(old(self).graph.nodes()[k]),
                forall|x: NodeKey| #[trigger]
                    old(self).gone(&*self, x) ==> x == k || upstream_of(old(self).graph.nodes(), k, x),
                forall|t: int|
                    0 <= t < i && n0.contains_key(#[trigger] deps@[t]@) && n0[deps@[t]@].ref_count <= 1
                        ==> !self.graph.nodes().contains_key(deps@[t]@),
                n0 == old(self).graph.nodes(),
                forall|fuel: nat|
                    fuel > n0.dom().len() ==> #[trigger] released(n0, k, fuel) == released_all(
                        self.graph.nodes(),
                        ids_view(deps@).skip(i as int),
                        (fuel - 1) as nat,
                    ),
            decreases deps@.len() - i,
        {
            let ghost before = *self;
            proof {
                self.graph.entries.lemma_dom_len();
                old(self).graph.entries.lemma_dom_len();
                assert(self.graph.nodes().dom().subset_of(old(self).graph.nodes().dom().remove(k)));
                vstd::set_lib::lemma_len_subset(self.graph.nodes().dom(), old(self).graph.nodes().dom().remove(k));
            }
            self.deactivate_node(&deps[i]);
            proof {
                assert forall|fuel: nat| fuel > n0.dom().len() implies #[trigger] released(n0, k, fuel) == released_all(
                    self.graph.nodes(),
                    ids_view(deps@).skip(i + 1),
                    (fuel - 1) as nat,
                ) by {
                    let f1 = (fuel - 1) as nat;
                    let rest = ids_view(deps@).skip(i as int);
                    assert(rest[0] == deps@[i as int]@);
                    assert(rest.drop_first() =~= ids_view(deps@).skip(i + 1));
                    assert(f1 > before.graph.nodes().dom().len());
                    assert(self.graph.nodes() == released(before.graph.nodes(), deps@[i as int]@, f1));
                }
                Self::lemma_deactivation_trans(old(self), &before, &*self);
                let d = deps@[i as int]@;
                assert(ids_view(deps@)[i as int] == d);
                assert(deps_keys(old(self).graph.nodes()[k]).contains(d));
                assert forall|x: NodeKey| #[trigger]
                    old(self).gone(&*self, x) implies x == k || upstream_of(old(self).graph.nodes(), k, x) by {
                    if !old(self).gone(&before, x) {
                        assert(before.gone(&*self, x));
                        lemma_upstream_extend(old(self).graph.nodes(), before.graph.nodes(), k, d, x);
                    }
                }
                if n0.contains_key(d) && n0[d].ref_count <= 1 && before.graph.nodes().contains_key(d) {
                    assert(before.graph.nodes()[d].ref_count <= n0[d].ref_count);
                }
                assert forall|t: int|
                    0 <= t < i + 1 && n0.contains_key(#[trigger] deps@[t]@) && n0[deps@[t]@].ref_count <= 1
                        implies !self.graph.nodes().contains_key(deps@[t]@) by {
                    if t < i {
                        assert(!before.graph.nodes().contains_key(deps@[t]@));
                    }
                }
            }
            i = i + 1;
        }
        proof {
            assert(ids_view(deps@).skip(deps@.len() as int) =~= Seq::<NodeKey>::empty());
            assert forall|d: NodeKey|
                #[trigger] deps_keys(n0[k]).contains(d) && n0.contains_key(d) && n0[d].ref_count <= 1
                    implies !self.graph.nodes().contains_key(d) by {
                let t = choose|t: int| 0 <= t < ids_view(deps@).len() && ids_view(deps@)[t] == d;
                assert(deps@[t]@ == d);
            }
        }
    }

    /// An engine with an empty graph, nothing active and no cycles run.
    pub fn new() -> (r: Self)
        ensures
            r.wf(),
            r.graph.nodes() == Map::<NodeKey, NodeEntry<V, W>>::empty(),
            r.graph.values() == Map::<NodeKey, V>::empty(),
            r.active@ == Set::<NodeKey>::empty(),
            r.guards.view() == Map::<NodeKey, Box<dyn ActivationGuard>>::empty(),
            r.error_strategies.view() == Map::<NodeKey, ErrorStrategy>::empty(),
            r.metrics.cycles() == 0,
            r.metrics.last() is None,
            r.pending_removals@.len() == 0,
            r.emissions@.len() == 0,
            r.computed@.len() == 0,
    {
        let r = Engine {
            graph: Graph::new(),
            topology: Topology::new(),
            guards: IdMap::new(),
            active: IdSet::new(),
            async_manager: AsyncManager::new(),
            error_strategies: IdMap::new(),
            metrics: MetricsCollector::new(),
            pending_removals: Vec::new(),
            emissions: Ghost(Seq::empty()),
            computed: Ghost(Seq::empty()),
        };
        assert(r.active@ =~= r.topology.deps_view().dom());
        r
    }

    /// Give up the references of every released subgraph, each list in
    /// reverse order of registration: a node loses one reference each time it
    /// is named, and leaves the registry when none is left. Nothing cascades,
    /// so a node shared with another subgraph stays while that one holds it.
    pub fn drain_pending_removals(&mut self)
        requires
            old(self).wf(),
        ensures
            old(self).drained(&*final(self)),
    {
        if self.pending_removals.len() == 0 {
            proof {
                assert(release_order(old(self).pending_removals@) =~= Seq::<NodeKey>::empty());
            }
            return;
        }
        let mut removals: Vec<Vec<NodeId>> = Vec::new();
        std::mem::swap(&mut removals, &mut self.pending_removals);
        let ghost start = *self;
        let ghost rm = removals@;
        let ghost n0 = old(self).graph.nodes();
        let ghost mut done: Seq<NodeKey> = Seq::empty();
        assert(old(self).removal_frame(&start));
        proof {
            assert(rm.take(0) =~= Seq::<Vec<NodeId>>::empty());
        }
        let mut i: usize = 0;
        while i < removals.len()
            invariant
                self.wf(),
                i <= removals@.len(),
                rm == removals@,
                n0 == old(self).graph.nodes(),
                old(self).removal_frame(&*self),
                self.pending_removals@.len() == 0,
                done == release_order(rm.take(i as int)),
                forall|k: NodeKey| #[trigger]
                    n0.contains_key(k) ==> kept_count(n0[k].ref_count, count_of(done, k), self.graph.nodes(), k),
                forall|a: int, b: int|
                    0 <= a < i && 0 <= b < rm[a]@.len() && n0.contains_key(#[trigger] rm[a]@[b]@)
                        && n0[rm[a]@[b]@].ref_count <= 1 ==> !self.graph.nodes().contains_key(rm[a]@[b]@),
                forall|x: NodeKey| #[trigger]
                    old(self).gone(&*self, x) ==> exists|a: int, b: int|
                        0 <= a < rm.len() && 0 <= b < rm[a]@.len() && x == #[trigger] rm[a]@[b]@,
            decreases removals@.len() - i,
        {
            let ids = &removals[i];
            let ghost lv = ids_view(ids@);
            let ghost d_i = done;
            let mut j: usize = ids.len();
            proof {
                assert(lv.reverse().take(0) =~= Seq::<NodeKey>::empty());
                assert(d_i + lv.reverse().take(0) =~= d_i);
            }
            while j > 0
                invariant
                    self.wf(),
                    j <= ids@.len(),
                    i < rm.len(),
                    rm == removals@,
                    ids == removals@[i as int],
                    lv == ids_view(ids@),
                    n0 == old(self).graph.nodes(),
                    old(self).removal_frame(&*self),
                    self.pending_removals@.len() == 0,
                    d_i == release_order(rm.take(i as int)),
                    done == d_i + lv.reverse().take(lv.len() - j),
                    forall|k: NodeKey| #[trigger]
                        n0.contains_key(k) ==> kept_count(n0[k].ref_count, count_of(done, k), self.graph.nodes(), k),
                    forall|a: int, b: int|
                        (0 <= a < i && 0 <= b < rm[a]@.len() || a == i && j <= b < rm[a]@.len()) && n0.contains_key(
                            #[trigger] rm[a]@[b]@,
                        ) && n0[rm[a]@[b]@].ref_count <= 1 ==> !self.graph.nodes().contains_key(rm[a]@[b]@),
                    forall|x: NodeKey| #[trigger]
                        old(self).gone(&*self, x) ==> exists|a: int, b: int|
                            0 <= a < rm.len() && 0 <= b < rm[a]@.len() && x == #[trigger] rm[a]@[b]@,
                decreases j,
            {
                j = j - 1;
                let ghost before = *self;
                let ghost done0 = done;
                let _ = self.drop_reference(&ids[j]);
                proof {
                    Self::lemma_deactivation_trans(old(self), &before, &*self);
                    let k = ids@[j as int]@;
                    assert(rm[i as int]@[j as int]@ == k);
                    assert(lv[j as int] == k);
                    let m = lv.len() - (j + 1);
                    assert(lv.reverse()[m] == k);
                    assert(lv.reverse().take(m + 1) =~= lv.reverse().take(m).push(k));
                    done = done0.push(k);
                    assert(done == d_i + lv.reverse().take(lv.len() - j)) by {
                        assert(d_i + lv.reverse().take(m + 1) =~= (d_i + lv.reverse().take(m)).push(k));
                    }
                    assert(done.drop_last() =~= done0);
                    assert forall|kk: NodeKey| #[trigger]
                        n0.contains_key(kk) implies kept_count(n0[kk].ref_count, count_of(done, kk), self.graph.nodes(), kk) by {
                        assert(count_of(done, kk) == count_of(done0, kk) + if k == kk { 1nat } else { 0nat });
                        if kk != k {
                            if before.graph.nodes().contains_key(kk) {
                                assert(self.graph.nodes().contains_key(kk));
                            }
                        }
                    }
                    if n0.contains_key(k) && n0[k].ref_count <= 1 && before.graph.nodes().contains_key(k) {
                        assert(before.graph.nodes()[k].ref_count <= n0[k].ref_count);
                    }
                    assert forall|a: int, b: int|
                        (0 <= a < i && 0 <= b < rm[a]@.len() || a == i && j <= b < rm[a]@.len()) && n0.contains_key(
                            #[trigger] rm[a]@[b]@,
                        ) && n0[rm[a]@[b]@].ref_count <= 1 implies !self.graph.nodes().contains_key(rm[a]@[b]@) by {
                        if !(a == i && b == j) {
                            assert(!before.graph.nodes().contains_key(rm[a]@[b]@));
                        }
                    }
                    assert forall|x: NodeKey| #[trigger]
                        old(self).gone(&*self, x) implies exists|a: int, b: int|
                            0 <= a < rm.len() && 0 <= b < rm[a]@.len() && x == #[trigger] rm[a]@[b]@ by {
                        if !old(self).gone(&before, x) {
                            assert(before.gone(&*self, x));
                            assert(x == k);
                        }
                    }
                }
            }
            proof {
                assert(lv.reverse().take(lv.len() as int) =~= lv.reverse());
                assert(rm.take(i + 1).drop_last() =~= rm.take(i as int));
                assert(rm.take(i + 1).last() == rm[i as int]);
            }
            i = i + 1;
        }
        proof {
            assert(rm.take(rm.len() as int) =~= rm);
            assert(rm == old(self).pending_removals@);
            assert forall|x: NodeKey| #[trigger] old(self).gone(&*self, x) implies old(self).pending_names(x) by {
                let (a, b) = choose|a: int, b: int| 0 <= a < rm.len() && 0 <= b < rm[a]@.len() && x == #[trigger] rm[a]@[b]@;
                assert(old(self).pending_removals@[a]@[b]@ == x);
            }
            assert forall|k: NodeKey| #[trigger]
                old(self).pending_names(k) && n0.contains_key(k) && n0[k].ref_count <= 1 implies !self.graph.nodes().contains_key(k) by {
                let (a, b) = choose|a: int, b: int|
                    0 <= a < old(self).pending_removals@.len() && 0 <= b < old(self).pending_removals@[a]@.len()
                        && #[trigger] old(self).pending_removals@[a]@[b]@ == k;
                assert(rm[a]@[b]@ == k);
            }
        }
    }

    /// Access the graph for building nodes, after deactivating the nodes of
    /// released subgraphs.
    pub fn graph(&mut self) -> (r: &mut Graph<V, W>)
        requires
            old(self).wf(),
        ensures
            r.wf(),
            old(self).pending_removals@.len() == 0 ==> *r == old(self).graph,
            final(self).graph == *final(r),
            final(self).pending_removals@.len() == 0,
            final(self).metrics == old(self).metrics,
            final(self).async_manager == old(self).async_manager,
            exists|mid: Engine<V, W>|
                #[trigger] old(self).drained(&mid) && *r == mid.graph && final(self).topology == mid.topology
                    && final(self).active == mid.active && final(self).guards == mid.guards
                    && final(self).error_strategies == mid.error_strategies,
    {
        self.drain_pending_removals();
        let ghost mid = *self;
        assert(old(self).drained(&mid));
        &mut self.graph
    }

    /// Activate a sink node, recursively activating its upstream
    /// dependencies, after deactivating the nodes of released subgraphs. A
    /// newly active source is activated and keeps the guard it hands out; a
    /// newly active compute node whose dependencies all have values gets a
    /// first value from them.
    pub fn activate_sink(&mut self, sink_id: &NodeId)
        requires
            old(self).wf(),
        ensures
            final(self).wf(),
            final(self).pending_removals@.len() == 0,
            final(self).graph.nodes().contains_key(sink_id@) ==> final(self).active@.contains(sink_id@),
            exists|mid: Engine<V, W>| #[trigger] old(self).drained(&mid) && mid.sink_activated(&*final(self), sink_id@),
            forall|k: NodeKey| #[trigger]
                old(self).pending_names(k) && old(self).graph.nodes().contains_key(k)
                    && old(self).graph.nodes()[k].ref_count <= 1 ==> !final(self).graph.nodes().contains_key(k),
    {
        self.drain_pending_removals();
        let ghost mid = *self;
        let ghost rank = choose|rank: spec_fn(NodeKey) -> nat| self.registry_ranked(rank);
        self.activate_node(sink_id, Ghost(rank));
        assert(mid.sink_activated(&*self, sink_id@));
    }

    /// Create a concurrency group with a maximum number of concurrent async
    /// tasks, after deactivating the nodes of released subgraphs.
    pub fn concurrency_group(&mut self, max_concurrent: usize) -> (r: ConcurrencyGroupHandle)
        requires
            old(self).wf(),
        ensures
            final(self).wf(),
            r.0 == old(self).async_manager.model().1.len(),
            final(self).async_manager.model() == (
                old(self).async_manager.model().0,
                old(self).async_manager.model().1.push((max_concurrent, 0, Seq::empty())),
                old(self).async_manager.model().2,
            ),
            exists|mid: Engine<V, W>|
                #![trigger old(self).drained(&mid)]
                old(self).drained(&mid) && final(self).graph == mid.graph && final(self).active == mid.active
                    && final(self).topology == mid.topology && final(self).guards == mid.guards
                    && final(self).error_strategies == mid.error_strategies && final(self).metrics == mid.metrics
                    && final(self).pending_removals == mid.pending_removals,
    {
        self.drain_pending_removals();
        let ghost mid = *self;
        let r = self.async_manager.create_group(max_concurrent);
        assert(old(self).drained(&mid));
        r
    }

    /// Set the error strategy for a node, after deactivating the nodes of
    /// released subgraphs.
    pub fn set_error_strategy(&mut self, id: &NodeId, strategy: ErrorStrategy)
        requires
            old(self).wf(),
        ensures
            final(self).wf(),
            exists|mid: Engine<V, W>|
                #![trigger old(self).drained(&mid)]
                old(self).drained(&mid) && final(self).error_strategies.view() == mid.error_strategies.view().insert(
                    id@,
                    strategy,
                ) && final(self).graph == mid.graph && final(self).active == mid.active && final(self).topology
                    == mid.topology && final(self).guards == mid.guards && final(self).metrics == mid.metrics
                    && final(self).async_manager == mid.async_manager && final(self).pending_removals
                    == mid.pending_removals,
    {
        self.drain_pending_removals();
        let ghost mid = *self;
        self.error_strategies.insert(id.clone(), strategy);
        assert(old(self).drained(&mid));
    }

    /// Get current engine metrics: the cycles run, the last cycle, and the
    /// active nodes counted by kind. Async work is not counted: `pending_async`
    /// is always 0.
    pub fn metrics(&self) -> (r: EngineMetrics)
        requires
            self.wf(),
        ensures
            r.total_cycles == self.metrics.cycles(),
            r.active_sources == count_kind(self.active.keys(), self.graph.nodes(), NodeKind::Source),
            r.active_computes == count_kind(self.active.keys(), self.graph.nodes(), NodeKind::Compute),
            r.active_sinks == count_kind(self.active.keys(), self.graph.nodes(), NodeKind::Sink),
            r.active_async_computes == count_kind(
                self.active.keys(),
                self.graph.nodes(),
                NodeKind::AsyncCompute,
            ),
            r.pending_async == 0,
            match self.metrics.last() {
                Some(m) => r.last_cycle is Some && r.last_cycle->0.cycle_id == m.cycle_id
                    && r.last_cycle->0.duration == m.duration && r.last_cycle->0.nodes_computed
                    == m.nodes_computed && r.last_cycle->0.timed_nodes() == m.timed_nodes(),
                None => r.last_cycle is None,
            },
    {
        let mut sources: usize = 0;
        let mut computes: usize = 0;
        let mut sinks: usize = 0;
        let mut async_computes: usize = 0;
        let ghost keys = self.active.keys();
        let mut i: usize = 0;
        while i < self.active.len()
            invariant
                self.wf(),
                keys == self.active.keys(),
                i <= keys.len(),
                sources == count_kind(keys.take(i as int), self.graph.nodes(), NodeKind::Source),
                computes == count_kind(keys.take(i as int), self.graph.nodes(), NodeKind::Compute),
                sinks == count_kind(keys.take(i as int), self.graph.nodes(), NodeKind::Sink),
                async_computes == count_kind(keys.take(i as int), self.graph.nodes(), NodeKind::AsyncCompute),
                sources + computes + sinks + async_computes <= i,
            decreases keys.len() - i,
        {
            let id = self.active.get(i);
            assert(keys.take(i + 1).drop_last() =~= keys.take(i as int));
            assert(keys.take(i + 1).last() == keys[i as int]);
            match self.graph.get_entry(id) {
                Some(entry) => {
                    match entry.kind {
                        NodeKind::Source => {
                            sources = sources + 1;
                        },
                        NodeKind::Compute => {
                            computes = computes + 1;
                        },
                        NodeKind::Sink => {
                            sinks = sinks + 1;
                        },
                        NodeKind::AsyncCompute => {
                            async_computes = async_computes + 1;
                        },
                    }
                },
                None => {},
            }
            i = i + 1;
        }
        assert(keys.take(keys.len() as int) =~= keys);
        let last = match self.metrics.last_cycle() {
            Some(m) => Some(m.copy()),
            None => None,
        };
        EngineMetrics {
            total_cycles: self.metrics.total_cycles(),
            active_sources: sources,
            active_computes: computes,
            active_sinks: sinks,
            active_async_computes: async_computes,
            pending_async: 0,
            last_cycle: last,
        }
    }

    /// Take a snapshot of the active nodes for introspection: each with its
    /// kind, dependencies and reference count, in activation order, and an
    /// edge `(dependency, node)` for each of its dependencies.
    pub fn snapshot(&self) -> (r: GraphSnapshot)
        requires
            self.wf(),
        ensures
            r.nodes@.len() == self.active.keys().len(),
            forall|i: int|
                0 <= i < r.nodes@.len() ==> {
                    let k = self.active.keys()[i];
                    &&& (#[trigger] r.nodes@[i]).id@ == k
                    &&& r.nodes@[i].kind == self.graph.nodes()[k].kind
                    &&& ids_view(r.nodes@[i].deps@) == deps_keys(self.graph.nodes()[k])
                    &&& r.nodes@[i].ref_count == self.graph.nodes()[k].ref_count
                },
            r.edges@.map_values(|e: (NodeId, NodeId)| (e.0@, e.1@)) == edges_of(
                self.active.keys(),
                self.graph.nodes(),
            ),
    {
        let mut nodes: Vec<NodeInfo> = Vec::new();
        let mut edges: Vec<(NodeId, NodeId)> = Vec::new();
        let ghost keys = self.active.keys();
        proof {
            self.active.lemma_view();
        }
        let mut i: usize = 0;
        while i < self.active.len()
            invariant
                self.wf(),
                keys == self.active.keys(),
                i <= keys.len(),
                nodes@.len() == i,
                forall|t: int|
                    0 <= t < i ==> {
                        let k = keys[t];
                        &&& (#[trigger] nodes@[t]).id@ == k
                        &&& nodes@[t].kind == self.graph.nodes()[k].kind
                        &&& ids_view(nodes@[t].deps@) == deps_keys(self.graph.nodes()[k])
                        &&& nodes@[t].ref_count == self.graph.nodes()[k].ref_count
                    },
                edges@.map_values(|e: (NodeId, NodeId)| (e.0@, e.1@)) == edges_of(
                    keys.take(i as int),
                    self.graph.nodes(),
                ),
            decreases keys.len() - i,
        {
            let id = self.active.get(i);
            let ghost k = keys[i as int];
            proof {
                self.active.lemma_view();
            }
            assert(keys.contains(k));
            assert(self.active@.contains(k));
            let ghost e0 = edges@.map_values(|e: (NodeId, NodeId)| (e.0@, e.1@));
            match self.graph.get_entry(id) {
                Some(entry) => {
                    nodes.push(
                        NodeInfo {
                            id: id.clone(),
                            kind: entry.kind,
                            deps: clone_ids(&entry.deps),
                            ref_count: entry.ref_count,
                        },
                    );
                    let ghost dk = deps_keys(*entry);
                    let mut j: usize = 0;
                    while j < entry.deps.len()
                        invariant
                            j <= entry.deps@.len(),
                            dk == ids_view(entry.deps@),
                            id@ == k,
                            edges@.map_values(|e: (NodeId, NodeId)| (e.0@, e.1@)) == e0 + dk.take(
                                j as int,
                            ).map_values(|d: NodeKey| (d, k)),
                        decreases entry.deps@.len() - j,
                    {
                        let ghost before = edges@.map_values(|e: (NodeId, NodeId)| (e.0@, e.1@));
                        edges.push((entry.deps[j].clone(), id.clone()));
                        assert(edges@.map_values(|e: (NodeId, NodeId)| (e.0@, e.1@)) =~= before.push((dk[j as int], k)));
                        assert(dk.take(j + 1) =~= dk.take(j as int).push(dk[j as int]));
                        assert(dk.take(j + 1).map_values(|d: NodeKey| (d, k)) =~= dk.take(j as int).map_values(|d: NodeKey| (d, k)).push((dk[j as int], k)));
                        assert(edges@.map_values(|e: (NodeId, NodeId)| (e.0@, e.1@)) =~= e0 + dk.take(
                            j + 1,
                        ).map_values(|d: NodeKey| (d, k)));
                        j = j + 1;
                    }
                    assert(dk.take(entry.deps@.len() as int) =~= dk);
                },
                None => {},
            }
            assert(keys.take(i + 1).drop_last() =~= keys.take(i as int));
            assert(keys.take(i + 1).last() == k);
            i = i + 1;
        }
        assert(keys.take(keys.len() as int) =~= keys);
        GraphSnapshot { nodes, edges }
    }

    /// Run compute node `node_id` on the current values of `dep_ids` and store
    /// the outcome as `strategy` says. `Retry` runs the node again, up to
    /// `max_attempts` times in all, until it gives a value.
    fn execute_compute_with_error_handling(&mut self, node_id: &NodeId, dep_ids: &Vec<NodeId>, strategy: ErrorStrategy)
        requires
            old(self).wf(),
        ensures
            final(self).wf(),
            final(self).graph.entries == old(self).graph.entries,
            final(self).graph.source_tx == old(self).graph.source_tx,
            final(self).graph.source_rx == old(self).graph.source_rx,
            final(self).topology == old(self).topology,
            final(self).guards == old(self).guards,
            final(self).active == old(self).active,
            final(self).async_manager == old(self).async_manager,
            final(self).error_strategies == old(self).error_strategies,
            final(self).metrics == old(self).metrics,
            final(self).pending_removals == old(self).pending_removals,
            final(self).emissions == old(self).emissions,
            !old(self).graph.nodes().contains_key(node_id@) ==> final(self).graph.values() == old(
                self,
            ).graph.values(),
            old(self).graph.nodes().contains_key(node_id@) ==> exists|out: Option<V>|
                #![trigger old(self).graph.nodes()[node_id@].node_impl.computes(inputs_of(ids_view(dep_ids@), old(self).graph.values()), out)]
                old(self).graph.nodes()[node_id@].node_impl.computes(
                    inputs_of(ids_view(dep_ids@), old(self).graph.values()),
                    out,
                ) && final(self).graph.values() == compute_outcome(
                    strategy,
                    old(self).graph.values(),
                    node_id@,
                    out,
                ),
            !old(self).graph.nodes().contains_key(node_id@) ==> final(self).computed == old(self).computed,
            old(self).graph.nodes().contains_key(node_id@) && !(strategy is Retry) ==> final(self).computed@ == old(
                self,
            ).computed@.push(node_id@),
            old(self).graph.nodes().contains_key(node_id@) && strategy is Retry ==> exists|tries: Seq<Option<V>>|
                #[trigger] retried(
                    old(self).graph.nodes()[node_id@],
                    inputs_of(ids_view(dep_ids@), old(self).graph.values()),
                    strategy->max_attempts,
                    tries,
                ) && final(self).graph.values() == compute_outcome(
                    strategy,
                    old(self).graph.values(),
                    node_id@,
                    tries.last(),
                ) && final(self).computed@ == old(self).computed@ + Seq::new(tries.len(), |j: int| node_id@),
    {
        let ghost k = node_id@;
        let ghost ins = inputs_of(ids_view(dep_ids@), old(self).graph.values());
        let r = match self.graph.get_entry(node_id) {
            Some(e) => e.node_impl.compute(dep_ids.as_slice(), &self.graph.value_store),
            None => {
                return;
            },
        };
        let ghost imp = old(self).graph.nodes()[k].node_impl;
        assert(imp.computes(ins, r));
        proof {
            self.computed@ = self.computed@.push(k);
        }
        match strategy {
            ErrorStrategy::PropagateStale => {
                match r {
                    Some(v) => {
                        self.graph.value_store.set_by_id(node_id, v);
                    },
                    None => {},
                }
            },
            ErrorStrategy::PropagateError => {
                match r {
                    Some(v) => {
                        self.graph.value_store.set_by_id(node_id, v);
                    },
                    None => {
                        self.graph.value_store.remove(node_id);
                    },
                }
            },
            ErrorStrategy::Retry { max_attempts, backoff_ms } => {
                match r {
                    Some(v) => {
                        self.graph.value_store.set_by_id(node_id, v);
                        proof {
                            let t = seq![r];
                            assert(t[0] == r);
                            assert(retried(old(self).graph.nodes()[k], ins, max_attempts, t));
                            assert(old(self).computed@.push(k) =~= old(self).computed@ + Seq::new(t.len(), |j: int| k));
                        }
                        return;
                    },
                    None => {},
                }
                let mut attempts: usize = 1;
                let ghost mut last = r;
                let ghost mut tries: Seq<Option<V>> = seq![r];
                // Nothing is ever sent on `idle`: receiving on it waits out the backoff.
                let (_hold, idle) = channel::channel::<()>();
                assert(self.computed@ =~= old(self).computed@ + Seq::new(tries.len(), |j: int| k));
                loop
                    invariant_except_break
                        *self == (Engine { computed: self.computed, ..*old(self) }),
                        imp.computes(ins, last),
                        last is None,
                        1 <= attempts,
                        attempts <= max_attempts || attempts == 1,
                        tries.len() == attempts,
                        forall|j: int| 0 <= j < tries.len() ==> (#[trigger] tries[j]) is None,
                    invariant
                        old(self).wf(),
                        strategy is Retry,
                        strategy->max_attempts == max_attempts,
                        old(self).graph.nodes().contains_key(k),
                        imp == old(self).graph.nodes()[k].node_impl,
                        ins == inputs_of(ids_view(dep_ids@), old(self).graph.values()),
                        k == node_id@,
                        tries.len() >= 1,
                        tries.last() == last,
                        forall|j: int| 0 <= j < tries.len() ==> imp.computes(ins, #[trigger] tries[j]),
                        self.computed@ == old(self).computed@ + Seq::new(tries.len(), |j: int| k),
                    ensures
                        self.wf(),
                        self.graph.entries == old(self).graph.entries,
                        self.graph.source_tx == old(self).graph.source_tx,
                        self.graph.source_rx == old(self).graph.source_rx,
                        self.topology == old(self).topology,
                        self.guards == old(self).guards,
                        self.active == old(self).active,
                        self.async_manager == old(self).async_manager,
                        self.error_strategies == old(self).error_strategies,
                        self.metrics == old(self).metrics,
                        self.pending_removals == old(self).pending_removals,
                        self.emissions == old(self).emissions,
                        imp.computes(ins, last),
                        self.graph.values() == compute_outcome(strategy, old(self).graph.values(), k, last),
                        retried(old(self).graph.nodes()[k], ins, max_attempts, tries),
                    decreases max_attempts - attempts,
                {
                    if attempts >= max_attempts {
                        break;
                    }
                    let _ = channel::recv_timeout(&idle, backoff_ms);
                    let next = match self.graph.get_entry(node_id) {
                        Some(e) => e.node_impl.compute(dep_ids.as_slice(), &self.graph.value_store),
                        None => None,
                    };
                    proof {
                        let t0 = tries;
                        last = next;
                        tries = tries.push(next);
                        self.computed@ = self.computed@.push(k);
                        assert(self.computed@ =~= old(self).computed@ + Seq::new(tries.len(), |j: int| k));
                        assert forall|j: int| 0 <= j < tries.len() implies imp.computes(ins, #[trigger] tries[j]) by {
                            if j < t0.len() {
                                assert(tries[j] == t0[j]);
                            }
                        }
                        assert forall|j: int| 0 <= j < tries.len() - 1 implies (#[trigger] tries[j]) is None by {
                            assert(tries[j] == t0[j]);
                        }
                    }
                    match next {
                        Some(v) => {
                            self.graph.value_store.set_by_id(node_id, v);
                            break;
                        },
                        None => {},
                    }
                    attempts = attempts + 1;
                }
                proof {
                    assert(imp.computes(ins, last));
                }
            },
        }
    }

    /// Run the nodes of `sorted` one after the other: compute nodes store
    /// their outcome, sinks emit, async nodes hand out their work, which is
    /// returned for spawning. Each registered node's time is recorded.
    fn execute_sequential_with_async(&mut self, sorted: &Vec<NodeId>, per_node_durations: &mut Vec<(NodeId, Duration)>) -> (spawns: Vec<AsyncSpawn<W>>)
        requires
            old(self).wf(),
        ensures
            final(self).wf(),
            final(self).graph.entries == old(self).graph.entries,
            final(self).graph.source_tx == old(self).graph.source_tx,
            final(self).graph.source_rx == old(self).graph.source_rx,
            final(self).topology == old(self).topology,
            final(self).guards == old(self).guards,
            final(self).active == old(self).active,
            final(self).async_manager == old(self).async_manager,
            final(self).error_strategies == old(self).error_strategies,
            final(self).metrics == old(self).metrics,
            final(self).pending_removals == old(self).pending_removals,
            exists|trace: Seq<Map<NodeKey, V>>|
                #![trigger runs_in_order(old(self).graph.nodes(), old(self).error_strategies.view(), ids_view(sorted@), trace)]
                runs_in_order(old(self).graph.nodes(), old(self).error_strategies.view(), ids_view(sorted@), trace)
                    && trace[0] == old(self).graph.values() && trace.last() == final(self).graph.values(),
            final(per_node_durations)@.map_values(|p: (NodeId, Duration)| p.0@) == old(per_node_durations)@.map_values(
                |p: (NodeId, Duration)| p.0@,
            ) + registered_only(ids_view(sorted@), old(self).graph.nodes()),
            exists|counts: Seq<nat>|
                #[trigger] attempt_counts(old(self).graph.nodes(), old(self).error_strategies.view(), ids_view(sorted@), counts)
                    && final(self).computed@ == old(self).computed@ + invoked_each(ids_view(sorted@), counts),
            forall|i: int|
                0 <= i < spawns@.len() ==> {
                    let k = (#[trigger] spawns@[i]).node_id@;
                    &&& ids_view(sorted@).contains(k)
                    &&& old(self).graph.nodes().contains_key(k)
                    &&& old(self).graph.nodes()[k].kind == NodeKind::AsyncCompute
                    &&& spawns@[i].policy == old(self).graph.nodes()[k].node_impl.chosen_policy()
                    &&& spawns@[i].group_id == old(self).graph.nodes()[k].node_impl.chosen_group()
                },
            exists|trace: Seq<Map<NodeKey, V>>, outs: Seq<Option<W>>|
                #![trigger runs_in_order(old(self).graph.nodes(), old(self).error_strategies.view(), ids_view(sorted@), trace), async_outs(old(self).graph.nodes(), ids_view(sorted@), trace, outs)]
                runs_in_order(old(self).graph.nodes(), old(self).error_strategies.view(), ids_view(sorted@), trace)
                    && trace[0] == old(self).graph.values() && trace.last() == final(self).graph.values()
                    && async_outs(old(self).graph.nodes(), ids_view(sorted@), trace, outs)
                    && spawn_pairs(spawns@) == spawned(ids_view(sorted@), outs)
                    && final(self).emissions@ == old(self).emissions@ + sink_calls(
                    old(self).graph.nodes(),
                    ids_view(sorted@),
                    trace,
                ),
    {
        let ghost nodes = self.graph.nodes();
        let ghost strategies = self.error_strategies.view();
        let ghost sv = ids_view(sorted@);
        let ghost per0 = per_node_durations@.map_values(|p: (NodeId, Duration)| p.0@);
        let ghost mut trace: Seq<Map<NodeKey, V>> = seq![self.graph.values()];
        let ghost mut outs: Seq<Option<W>> = seq![];
        let ghost mut counts: Seq<nat> = seq![];
        let mut spawns: Vec<AsyncSpawn<W>> = Vec::new();
        let mut i: usize = 0;
        while i < sorted.len()
            invariant
                self.wf(),
                i <= sorted@.len(),
                sv == ids_view(sorted@),
                nodes == old(self).graph.nodes(),
                strategies == old(self).error_strategies.view(),
                self.graph.entries == old(self).graph.entries,
                self.graph.source_tx == old(self).graph.source_tx,
                self.graph.source_rx == old(self).graph.source_rx,
                self.topology == old(self).topology,
                self.guards == old(self).guards,
                self.active == old(self).active,
                self.async_manager == old(self).async_manager,
                self.error_strategies == old(self).error_strategies,
                self.metrics == old(self).metrics,
                self.pending_removals == old(self).pending_removals,
                runs_in_order(nodes, strategies, sv.take(i as int), trace),
                trace[0] == old(self).graph.values(),
                trace.last() == self.graph.values(),
                per_node_durations@.map_values(|p: (NodeId, Duration)| p.0@) == per0 + registered_only(
                    sv.take(i as int),
                    nodes,
                ),
                forall|t: int|
                    0 <= t < spawns@.len() ==> {
                        let k = (#[trigger] spawns@[t]).node_id@;
                        &&& sv.contains(k)
                        &&& nodes.contains_key(k)
                        &&& nodes[k].kind == NodeKind::AsyncCompute
                        &&& spawns@[t].policy == nodes[k].node_impl.chosen_policy()
                        &&& spawns@[t].group_id == nodes[k].node_impl.chosen_group()
                    },
                async_outs(nodes, sv.take(i as int), trace, outs),
                spawn_pairs(spawns@) == spawned(sv.take(i as int), outs),
                self.emissions@ == old(self).emissions@ + sink_calls(nodes, sv.take(i as int), trace),
                attempt_counts(nodes, strategies, sv.take(i as int), counts),
                self.computed@ == old(self).computed@ + invoked_each(sv.take(i as int), counts),
            decreases sorted@.len() - i,
        {
            let node_id = &sorted[i];
            let ghost k = node_id@;
            let ghost before = self.graph.values();
            let ghost per_before = per_node_durations@.map_values(|p: (NodeId, Duration)| p.0@);
            assert(sv[i as int] == k);
            assert(sv.take(i + 1).drop_last() =~= sv.take(i as int));
            assert(sv.take(i + 1).last() == k);
            let node_start = now();
            let (kind, dep_ids) = match self.graph.get_entry(node_id) {
                Some(e) => (e.kind, clone_ids(&e.deps)),
                None => {
                    proof {
                        assert(node_step(nodes, strategies, k, before, before));
                        let t2 = trace.push(before);
                        assert forall|j: int| 0 <= j < sv.take(i + 1).len() implies #[trigger] node_step(
                            nodes,
                            strategies,
                            sv.take(i + 1)[j],
                            t2[j],
                            t2[j + 1],
                        ) by {
                            if j < i {
                                assert(sv.take(i + 1)[j] == sv.take(i as int)[j]);
                                assert(node_step(nodes, strategies, sv.take(i as int)[j], trace[j], trace[j + 1]));
                            }
                        }
                        assert(t2.drop_last() =~= trace);
                        lemma_outs_step(nodes, sv.take(i + 1), t2, outs, None);
                        lemma_sink_calls_step(nodes, sv.take(i + 1), t2);
                        trace = t2;
                        lemma_invoked_each_push(sv.take(i as int), counts, k, 0);
                        assert(Seq::new(0, |j: int| k) =~= Seq::<NodeKey>::empty());
                        assert(sv.take(i + 1) =~= sv.take(i as int).push(k));
                        assert(self.computed@ =~= old(self).computed@ + invoked_each(sv.take(i + 1), counts.push(0)));
                        lemma_counts_step(nodes, strategies, sv.take(i + 1), counts, 0);
                        counts = counts.push(0);
                        outs = outs.push(None);
                    }
                    i = i + 1;
                    continue;
                },
            };
            let ghost mut out: Option<W> = None;
            let ghost mut cnt: nat = 0;
            let ghost cb = self.computed@;
            match kind {
                NodeKind::Compute => {
                    let strategy = match self.error_strategies.get(node_id) {
                        Some(st) => *st,
                        None => ErrorStrategy::PropagateStale,
                    };
                    assert(strategy == strategy_of(strategies, k));
                    self.execute_compute_with_error_handling(node_id, &dep_ids, strategy);
                    proof {
                        if strategy is Retry {
                            let tries = choose|tries: Seq<Option<V>>|
                                #[trigger] retried(
                                    nodes[k],
                                    inputs_of(ids_view(dep_ids@), before),
                                    strategy->max_attempts,
                                    tries,
                                ) && self.graph.values() == compute_outcome(strategy, before, k, tries.last())
                                    && self.computed@ == cb + Seq::new(tries.len(), |j: int| k);
                            cnt = tries.len();
                        } else {
                            cnt = 1;
                            assert(self.computed@ =~= cb + Seq::new(1, |j: int| k));
                        }
                        assert(attempt_count(nodes, strategies, k, cnt));
                        let imp = nodes[k].node_impl;
                        assert(ids_view(dep_ids@) == deps_keys(nodes[k]));
                        let out = choose|out: Option<V>|
                            imp.computes(inputs_of(ids_view(dep_ids@), before), out) && self.graph.values()
                                == compute_outcome(strategy, before, k, out);
                        assert(imp.computes(inputs_of(deps_keys(nodes[k]), before), out));
                        assert(node_step(nodes, strategies, k, before, self.graph.values()));
                    }
                },
                NodeKind::Sink => {
                    match self.graph.get_entry(node_id) {
                        Some(e) => {
                            e.node_impl.emit(dep_ids.as_slice(), &self.graph.value_store);
                            proof {
                                self.emissions@ = self.emissions@.push(
                                    (k, inputs_of(ids_view(dep_ids@), self.graph.values())),
                                );
                            }
                        },
                        None => {},
                    }
                },
                NodeKind::AsyncCompute => {
                    match self.graph.get_entry(node_id) {
                        Some(e) => {
                            let policy = e.node_impl.async_policy();
                            let group_id = e.node_impl.concurrency_group_id();
                            let r = e.node_impl.compute_async(dep_ids.as_slice(), &self.graph.value_store);
                            proof {
                                out = r;
                            }
                            match r {
                                Some(work) => {
                                    let ghost sp0 = spawns@;
                                    spawns.push(AsyncSpawn { node_id: node_id.clone(), work, policy, group_id });
                                    assert(spawn_pairs(spawns@) =~= spawn_pairs(sp0).push((k, work)));
                                },
                                None => {},
                            }
                        },
                        None => {},
                    }
                },
                NodeKind::Source => {},
            }
            proof {
                let after = self.graph.values();
                assert(node_step(nodes, strategies, k, before, after));
                let t2 = trace.push(after);
                assert forall|j: int| 0 <= j < sv.take(i + 1).len() implies #[trigger] node_step(
                    nodes,
                    strategies,
                    sv.take(i + 1)[j],
                    t2[j],
                    t2[j + 1],
                ) by {
                    if j < i {
                        assert(sv.take(i + 1)[j] == sv.take(i as int)[j]);
                        assert(node_step(nodes, strategies, sv.take(i as int)[j], trace[j], trace[j + 1]));
                    }
                }
                assert(t2.drop_last() =~= trace);
                lemma_outs_step(nodes, sv.take(i + 1), t2, outs, out);
                lemma_sink_calls_step(nodes, sv.take(i + 1), t2);
                if kind != NodeKind::Compute {
                    assert(Seq::new(0, |j: int| k) =~= Seq::<NodeKey>::empty());
                    assert(self.computed@ =~= cb + Seq::new(0, |j: int| k));
                }
                lemma_invoked_each_push(sv.take(i as int), counts, k, cnt);
                assert(sv.take(i + 1) =~= sv.take(i as int).push(k));
                assert(self.computed@ =~= old(self).computed@ + invoked_each(sv.take(i + 1), counts.push(cnt)));
                lemma_counts_step(nodes, strategies, sv.take(i + 1), counts, cnt);
                counts = counts.push(cnt);
                trace = t2;
                outs = outs.push(out);
            }
            per_node_durations.push((node_id.clone(), elapsed(&node_start)));
            assert(per_node_durations@.map_values(|p: (NodeId, Duration)| p.0@) =~= per_before.push(k));
            i = i + 1;
        }
        assert(sv.take(sorted@.len() as int) =~= sv);
        spawns
    }

    /// Run all but the async nodes of `sorted` in waves (see
    /// `Scheduler::execute_parallel`), then collect the work of the async
    /// nodes, in order, for spawning.
    fn execute_parallel_with_async(&mut self, sorted: &Vec<NodeId>, dirty: &IdSet) -> (spawns: Vec<AsyncSpawn<W>>)
        requires
            old(self).wf(),
        ensures
            final(self).wf(),
            final(self).graph.entries == old(self).graph.entries,
            final(self).graph.source_tx == old(self).graph.source_tx,
            final(self).graph.source_rx == old(self).graph.source_rx,
            final(self).topology == old(self).topology,
            final(self).guards == old(self).guards,
            final(self).active == old(self).active,
            final(self).async_manager == old(self).async_manager,
            final(self).error_strategies == old(self).error_strategies,
            final(self).metrics == old(self).metrics,
            final(self).pending_removals == old(self).pending_removals,
            exists|waves: Seq<Seq<int>>, trace: Seq<Map<NodeKey, V>>|
                #![trigger runs_in_waves(old(self).graph.nodes(), sync_only(ids_view(sorted@), old(self).graph.nodes()), waves, trace)]
                runs_in_waves(old(self).graph.nodes(), sync_only(ids_view(sorted@), old(self).graph.nodes()), waves, trace)
                    && trace[0] == old(self).graph.values() && trace.last() == final(self).graph.values()
                    && final(self).emissions@ == old(self).emissions@ + wave_sink_calls(
                    old(self).graph.nodes(),
                    sync_only(ids_view(sorted@), old(self).graph.nodes()),
                    waves,
                    trace,
                ) && final(self).computed@ == old(self).computed@ + wave_computes(
                    old(self).graph.nodes(),
                    sync_only(ids_view(sorted@), old(self).graph.nodes()),
                    waves,
                ) && (ids_view(sorted@).no_duplicates() ==> wave_computes(
                    old(self).graph.nodes(),
                    sync_only(ids_view(sorted@), old(self).graph.nodes()),
                    waves,
                ).no_duplicates())
                    && (ordered_input(&old(self).topology, sync_only(ids_view(sorted@), old(self).graph.nodes()), dirty@)
                    ==> waves_in_order(
                    &old(self).topology,
                    sync_only(ids_view(sorted@), old(self).graph.nodes()),
                    waves,
                    dirty@,
                )) && (ordered_input(&old(self).topology, sync_only(ids_view(sorted@), old(self).graph.nodes()), dirty@)
                    && old(self).topology.in_dependency_order(
                    sync_only(ids_view(sorted@), old(self).graph.nodes()),
                    dirty@,
                ) ==> forall|p: int|
                    0 <= p < sync_only(ids_view(sorted@), old(self).graph.nodes()).len() ==> #[trigger] runs_at(
                        waves,
                        p,
                    )),
            forall|i: int|
                0 <= i < spawns@.len() ==> {
                    let k = (#[trigger] spawns@[i]).node_id@;
                    &&& ids_view(sorted@).contains(k)
                    &&& old(self).graph.nodes().contains_key(k)
                    &&& old(self).graph.nodes()[k].kind == NodeKind::AsyncCompute
                    &&& spawns@[i].policy == old(self).graph.nodes()[k].node_impl.chosen_policy()
                    &&& spawns@[i].group_id == old(self).graph.nodes()[k].node_impl.chosen_group()
                },
            exists|outs: Seq<Option<W>>|
                #![trigger spawned(ids_view(sorted@), outs)]
                async_outs(
                    old(self).graph.nodes(),
                    ids_view(sorted@),
                    Seq::new(sorted@.len() + 1, |j: int| final(self).graph.values()),
                    outs,
                ) && spawn_pairs(spawns@) == spawned(ids_view(sorted@), outs),
    {
        let ghost nodes = self.graph.nodes();
        let ghost sv = ids_view(sorted@);
        let mut sync_sorted: Vec<NodeId> = Vec::new();
        let mut i: usize = 0;
        while i < sorted.len()
            invariant
                self.wf(),
                nodes == self.graph.nodes(),
                sv == ids_view(sorted@),
                i <= sorted@.len(),
                ids_view(sync_sorted@) == sync_only(sv.take(i as int), nodes),
            decreases sorted@.len() - i,
        {
            let keep = match self.graph.get_entry(&sorted[i]) {
                Some(e) => e.kind != NodeKind::AsyncCompute,
                None => true,
            };
            let ghost before = ids_view(sync_sorted@);
            assert(sv.take(i + 1).drop_last() =~= sv.take(i as int));
            assert(sv.take(i + 1).last() == sorted@[i as int]@);
            if keep {
                sync_sorted.push(sorted[i].clone());
                assert(ids_view(sync_sorted@) =~= before.push(sorted@[i as int]@));
            }
            i = i + 1;
        }
        assert(sv.take(sorted@.len() as int) =~= sv);
        proof {
            if sv.no_duplicates() {
                lemma_sync_only_unique(sv, nodes);
            }
        }
        let (calls, invoked) = Scheduler::execute_parallel(
            &self.graph.entries,
            &mut self.graph.value_store,
            &self.topology,
            &sync_sorted,
            dirty,
        );
        proof {
            self.emissions@ = self.emissions@ + calls@;
            self.computed@ = self.computed@ + invoked@;
        }
        let mut spawns: Vec<AsyncSpawn<W>> = Vec::new();
        let ghost vals = self.graph.values();
        let ghost em = self.emissions@;
        let ghost cm = self.computed@;
        let ghost mut outs: Seq<Option<W>> = seq![];
        let mut i: usize = 0;
        while i < sorted.len()
            invariant
                self.wf(),
                nodes == self.graph.nodes(),
                vals == self.graph.values(),
                self.emissions@ == em,
                self.computed@ == cm,
                async_outs(nodes, sv.take(i as int), Seq::new(i as nat + 1, |j: int| vals), outs),
                spawn_pairs(spawns@) == spawned(sv.take(i as int), outs),
                sv == ids_view(sorted@),
                i <= sorted@.len(),
                forall|t: int|
                    0 <= t < spawns@.len() ==> {
                        let k = (#[trigger] spawns@[t]).node_id@;
                        &&& sv.contains(k)
                        &&& nodes.contains_key(k)
                        &&& nodes[k].kind == NodeKind::AsyncCompute
                        &&& spawns@[t].policy == nodes[k].node_impl.chosen_policy()
                        &&& spawns@[t].group_id == nodes[k].node_impl.chosen_group()
                    },
            decreases sorted@.len() - i,
        {
            let node_id = &sorted[i];
            let ghost k = node_id@;
            assert(sv[i as int] == node_id@);
            assert(sv.take(i + 1).drop_last() =~= sv.take(i as int));
            assert(sv.take(i + 1).last() == k);
            let ghost mut out: Option<W> = None;
            match self.graph.get_entry(node_id) {
                Some(e) => {
                    if e.kind == NodeKind::AsyncCompute {
                        let policy = e.node_impl.async_policy();
                        let group_id = e.node_impl.concurrency_group_id();
                        let r = e.node_impl.compute_async(e.deps.as_slice(), &self.graph.value_store);
                        proof {
                            out = r;
                        }
                        match r {
                            Some(work) => {
                                let ghost sp0 = spawns@;
                                spawns.push(AsyncSpawn { node_id: node_id.clone(), work, policy, group_id });
                                assert(spawn_pairs(spawns@) =~= spawn_pairs(sp0).push((k, work)));
                            },
                            None => {},
                        }
                    }
                },
                None => {},
            }
            proof {
                let st = Seq::new(i as nat + 2, |j: int| vals);
                assert(st.drop_last() =~= Seq::new(i as nat + 1, |j: int| vals));
                lemma_outs_step(nodes, sv.take(i + 1), st, outs, out);
                outs = outs.push(out);
            }
            i = i + 1;
        }
        proof {
            assert(sv.take(sorted@.len() as int) =~= sv);
        }
        spawns
    }

    /// Hand each of `spawns` to the async manager, in order.
    fn spawn_async_work(&mut self, spawns: Vec<AsyncSpawn<W>>)
        requires
            old(self).wf(),
        ensures
            final(self).wf(),
            final(self).async_manager.model() == after_spawns(old(self).async_manager.model(), spawns_view(spawns@)),
            final(self).async_manager.notifier_view() == old(self).async_manager.notifier_view(),
            final(self).graph == old(self).graph,
            final(self).topology == old(self).topology,
            final(self).guards == old(self).guards,
            final(self).active == old(self).active,
            final(self).error_strategies == old(self).error_strategies,
            final(self).metrics == old(self).metrics,
            final(self).pending_removals == old(self).pending_removals,
            final(self).emissions == old(self).emissions,
            final(self).computed == old(self).computed,
    {
        let ghost all = spawns_view(spawns@);
        let mut rest = spawns;
        let ghost mut done: int = 0;
        while rest.len() > 0
            invariant
                self.wf(),
                0 <= done <= all.len(),
                spawns_view(rest@) == all.skip(done),
                self.async_manager.model() == after_spawns(old(self).async_manager.model(), all.take(done)),
                self.async_manager.notifier_view() == old(self).async_manager.notifier_view(),
                self.graph == old(self).graph,
                self.topology == old(self).topology,
                self.guards == old(self).guards,
                self.active == old(self).active,
                self.error_strategies == old(self).error_strategies,
                self.metrics == old(self).metrics,
                self.pending_removals == old(self).pending_removals,
                self.emissions == old(self).emissions,
                self.computed == old(self).computed,
            decreases rest@.len(),
        {
            let ghost r0 = rest@;
            let sp = rest.remove(0);
            proof {
                assert(spawns_view(r0).len() == r0.len());
                assert(done < all.len());
                assert(spawns_view(r0)[0] == all.skip(done)[0]);
                assert(all.skip(done)[0] == all[done]);
                assert(rest@ == r0.remove(0));
                assert forall|j: int| 0 <= j < rest@.len() implies #[trigger] spawns_view(rest@)[j] == all.skip(done + 1)[j] by {
                    assert(rest@[j] == r0[j + 1]);
                    assert(spawns_view(r0)[j + 1] == all.skip(done)[j + 1]);
                }
                assert(spawns_view(rest@) =~= all.skip(done + 1));
                assert(all.take(done + 1).drop_last() =~= all.take(done));
                assert(all.take(done + 1).last() == all[done]);
            }
            self.async_manager.spawn(sp.node_id, sp.work, sp.policy, sp.group_id);
            proof {
                done = done + 1;
            }
        }
        assert(all.take(done) =~= all);
    }

    /// Run one propagation cycle on `updates` (source values, then async
    /// results): write them into the value store, compute the dirty set,
    /// sort it topologically and run its nodes, sequentially or in waves,
    /// hand out async work and record the cycle's metrics. Without updates
    /// nothing happens.
    pub fn run_cycle_with(&mut self, updates: Vec<(NodeId, V)>, parallel: bool)
        requires
            old(self).wf(),
            old(self).metrics.cycles() < u64::MAX,
        ensures
            final(self).wf(),
            updates@.len() == 0 ==> *final(self) == *old(self),
            updates@.len() > 0 ==> exists|sorted: Seq<NodeKey>|
                #[trigger] cycle_ran(&*old(self), &*final(self), updates_view(updates@), parallel, sorted),
            updates@.len() > 0 ==> forall|k: NodeKey|
                !old(self).topology.dirty_of(updated_keys(updates_view(updates@))).contains(k) ==> #[trigger] same_value(
                    apply_updates(old(self).graph.values(), updates_view(updates@)),
                    final(self).graph.values(),
                    k,
                ),
            final(self).graph.entries == old(self).graph.entries,
            final(self).topology == old(self).topology,
            final(self).active == old(self).active,
            final(self).guards == old(self).guards,
            final(self).error_strategies == old(self).error_strategies,
            final(self).pending_removals == old(self).pending_removals,
    {
        if updates.len() == 0 {
            return;
        }
        let cycle_start = now();
        let ghost ups = updates_view(updates@);
        let ghost v0 = self.graph.values();
        let mut updated = IdSet::new();
        let mut rest = updates;
        let ghost mut done: int = 0;
        while rest.len() > 0
            invariant
                self.wf(),
                updated.wf(),
                0 <= done <= ups.len(),
                updates_view(rest@) == ups.skip(done),
                self.graph.values() == apply_updates(v0, ups.take(done)),
                updated@ == updated_keys(ups.take(done)),
                self.graph.entries == old(self).graph.entries,
                self.graph.source_tx == old(self).graph.source_tx,
                self.graph.source_rx == old(self).graph.source_rx,
                self.topology == old(self).topology,
                self.guards == old(self).guards,
                self.active == old(self).active,
                self.async_manager == old(self).async_manager,
                self.error_strategies == old(self).error_strategies,
                self.metrics == old(self).metrics,
                self.pending_removals == old(self).pending_removals,
                self.emissions == old(self).emissions,
                self.computed == old(self).computed,
            decreases rest@.len(),
        {
            let ghost r0 = rest@;
            let (id, value) = rest.remove(0);
            proof {
                assert(updates_view(r0).len() == r0.len());
                assert(done < ups.len());
                assert(updates_view(r0)[0] == ups.skip(done)[0]);
                assert(ups.skip(done)[0] == ups[done]);
                assert(rest@ == r0.remove(0));
                assert forall|j: int| 0 <= j < rest@.len() implies #[trigger] updates_view(rest@)[j] == ups.skip(done + 1)[j] by {
                    assert(rest@[j] == r0[j + 1]);
                    assert(updates_view(r0)[j + 1] == ups.skip(done)[j + 1]);
                }
                assert(updates_view(rest@) =~= ups.skip(done + 1));
                assert(ups.take(done + 1).drop_last() =~= ups.take(done));
                assert(ups.take(done + 1).last() == ups[done]);
                assert(ups.take(done + 1).map_values(|u: (NodeKey, V)| u.0) =~= ups.take(done).map_values(
                    |u: (NodeKey, V)| u.0,
                ).push(ups[done].0));
                ups.take(done).map_values(|u: (NodeKey, V)| u.0).lemma_push_to_set_commute(ups[done].0);
            }
            self.graph.value_store.set_by_id(&id, value);
            updated.insert(id);
            proof {
                done = done + 1;
            }
        }
        assert(ups.take(done) =~= ups);
        let ghost s1 = self.graph.values();
        let ghost start = *self;
        let dirty = self.topology.dirty_set(&updated);
        let sorted = self.topology.topo_sort(&dirty);
        let mut per_node_durations: Vec<(NodeId, Duration)> = Vec::new();
        let spawns = if parallel {
            self.execute_parallel_with_async(&sorted, &dirty)
        } else {
            self.execute_sequential_with_async(&sorted, &mut per_node_durations)
        };
        let ghost mid = *self;
        self.spawn_async_work(spawns);
        let cycle_id = self.metrics.total_cycles() + 1;
        let nodes_computed = sorted.len();
        self.metrics.record_cycle(
            CycleMetrics {
                cycle_id,
                duration: elapsed(&cycle_start),
                nodes_computed,
                per_node_durations,
            },
        );
        proof {
            let sv = ids_view(sorted@);
            let dd = old(self).topology.dirty_of(updated_keys(ups));
            let nodes = old(self).graph.nodes();
            if !parallel {
                assert(per_node_durations@.map_values(|p: (NodeId, Duration)| p.0@) =~= registered_only(sv, nodes));
            } else {
                assert(per_node_durations@.len() == 0);
            }
            assert forall|k: NodeKey| !dd.contains(k) implies #[trigger] same_value(
                apply_updates(old(self).graph.values(), ups),
                self.graph.values(),
                k,
            ) by {
                assert(!sv.contains(k)) by {
                    if sv.contains(k) {
                        let j = choose|j: int| 0 <= j < sv.len() && sv[j] == k;
                        assert(dirty@.contains(sorted@[j]@));
                    }
                }
                if parallel {
                    let (waves, trace) = choose|waves: Seq<Seq<int>>, trace: Seq<Map<NodeKey, V>>|
                        runs_in_waves(nodes, sync_only(sv, nodes), waves, trace) && trace[0] == s1
                            && trace.last() == mid.graph.values();
                    assert(!sync_only(sv, nodes).contains(k)) by {
                        if sync_only(sv, nodes).contains(k) {
                            lemma_sync_only_within(sv, nodes, k);
                        }
                    }
                    lemma_waves_frame(nodes, sync_only(sv, nodes), waves, trace, k);
                } else {
                    let trace = choose|trace: Seq<Map<NodeKey, V>>|
                        runs_in_order(nodes, old(self).error_strategies.view(), sv, trace)
                            && trace[0] == s1 && trace.last() == mid.graph.values();
                    lemma_run_frame(nodes, old(self).error_strategies.view(), sv, trace, k);
                }
            }
            let sp = spawns_view(spawns@);
            assert(sp.map_values(|x: (NodeKey, W, AsyncPolicy, Option<usize>)| (x.0, x.1)) =~= spawn_pairs(spawns@));
            if parallel {
                let outs = choose|outs: Seq<Option<W>>|
                    async_outs(nodes, sv, Seq::new(sv.len() + 1, |j: int| mid.graph.values()), outs)
                        && spawn_pairs(spawns@) == spawned(sv, outs);
                assert(Seq::new(sv.len() + 1, |j: int| mid.graph.values()) =~= Seq::new(
                    sv.len() + 1,
                    |j: int| self.graph.values(),
                ));
            } else {
                let (trace, outs) = choose|trace: Seq<Map<NodeKey, V>>, outs: Seq<Option<W>>|
                    runs_in_order(nodes, old(self).error_strategies.view(), sv, trace) && trace[0] == s1
                        && trace.last() == mid.graph.values() && async_outs(nodes, sv, trace, outs)
                        && spawn_pairs(spawns@) == spawned(sv, outs) && mid.emissions@ == start.emissions@
                        + sink_calls(nodes, sv, trace);
                assert(async_outs(nodes, sv, trace, outs));
            }
            assert forall|i: int| 0 <= i < sp.len() implies {
                &&& sv.contains(#[trigger] sp[i].0)
                &&& old(self).graph.nodes().contains_key(sp[i].0)
                &&& old(self).graph.nodes()[sp[i].0].kind == NodeKind::AsyncCompute
                &&& sp[i].2 == old(self).graph.nodes()[sp[i].0].node_impl.chosen_policy()
                &&& sp[i].3 == old(self).graph.nodes()[sp[i].0].node_impl.chosen_group()
            } by {
                assert(sp[i].0 == spawns@[i].node_id@);
            }
            if parallel && old(self).topology.consistent_on(dd) {
                lemma_sync_only_unique(sv, nodes);
                assert forall|i: int| 0 <= i < sync_only(sv, nodes).len() implies dd.contains(
                    #[trigger] sync_only(sv, nodes)[i],
                ) by {
                    let k = sync_only(sv, nodes)[i];
                    lemma_sync_only_within(sv, nodes, k);
                    let j = choose|j: int| 0 <= j < sv.len() && sv[j] == k;
                    assert(dirty@.contains(sorted@[j]@));
                }
                assert(ordered_input(&old(self).topology, sync_only(sv, nodes), dd));
                if forall|i: int|
                    0 <= i < sv.len() ==> !(nodes.contains_key(#[trigger] sv[i]) && nodes[sv[i]].kind
                        == NodeKind::AsyncCompute) {
                    lemma_sync_only_all(sv, nodes);
                    assert(old(self).topology.in_dependency_order(sync_only(sv, nodes), dd));
                }
            }
            assert(cycle_ran(&*old(self), &*self, ups, parallel, sv));
        }
    }

    /// Run a single propagation cycle: deactivate released subgraphs, take
    /// the pending source updates and the results of async work, and run the
    /// cycle on them (see `run_cycle_with`). What has arrived depends on other
    /// threads, so only what holds of every arrival is stated. The cycle hands
    /// async work to the async manager; running it is up to whoever executes
    /// the manager's actions (the app's async runtime).
    pub fn run_cycle(&mut self)
        requires
            old(self).wf(),
            old(self).metrics.cycles() < u64::MAX,
        ensures
            old(self).ran_cycle(&*final(self)),
            exists|mid: Engine<V, W>|
                #[trigger] old(self).drained(&mid) && cycle_on_arrivals(&mid, &*final(self), Seq::empty(), false),
    {
        let none: Vec<(NodeId, V)> = Vec::new();
        assert(updates_view(none@) =~= Seq::<(NodeKey, V)>::empty());
        self.run_cycle_given(none);
    }

    /// `run_cycle`, with the updates `given` joining the cycle's arrivals,
    /// after the source updates waiting in the channel.
    pub(crate) fn run_cycle_given(&mut self, given: Vec<(NodeId, V)>)
        requires
            old(self).wf(),
            old(self).metrics.cycles() < u64::MAX,
        ensures
            old(self).ran_cycle(&*final(self)),
            exists|mid: Engine<V, W>|
                #[trigger] old(self).drained(&mid) && cycle_on_arrivals(&mid, &*final(self), updates_view(given@), false),
    {
        self.drain_pending_removals();
        let ghost mid = *self;
        self.run_cycle_impl(given, false);
        proof {
            assert forall|x: NodeKey| #[trigger] old(self).gone(&*self, x) implies old(self).pending_names(x) by {
                assert(old(self).gone(&mid, x));
            }
        }
    }

    /// Run a propagation cycle whose nodes run in waves: a wave holds the
    /// nodes whose dirty dependencies have all run, and runs them on the same
    /// store (see `run_cycle_with`). What has arrived depends on other threads,
    /// so only what holds of every arrival is stated.
    pub fn run_cycle_parallel(&mut self)
        requires
            old(self).wf(),
            old(self).metrics.cycles() < u64::MAX,
        ensures
            old(self).ran_cycle(&*final(self)),
            exists|mid: Engine<V, W>|
                #[trigger] old(self).drained(&mid) && cycle_on_arrivals(&mid, &*final(self), Seq::empty(), true),
    {
        self.drain_pending_removals();
        let ghost mid = *self;
        let none: Vec<(NodeId, V)> = Vec::new();
        assert(updates_view(none@) =~= Seq::<(NodeKey, V)>::empty());
        self.run_cycle_impl(none, true);
        proof {
            assert forall|x: NodeKey| #[trigger] old(self).gone(&*self, x) implies old(self).pending_names(x) by {
                assert(old(self).gone(&mid, x));
            }
        }
    }

    /// Take the pending updates, then `given`, then the async results, and
    /// run a cycle on them.
    fn run_cycle_impl(&mut self, given: Vec<(NodeId, V)>, parallel: bool)
        requires
            old(self).wf(),
            old(self).metrics.cycles() < u64::MAX,
        ensures
            final(self).wf(),
            final(self).pending_removals == old(self).pending_removals,
            final(self).graph.entries == old(self).graph.entries,
            final(self).active == old(self).active,
            cycle_on_arrivals(&*old(self), &*final(self), updates_view(given@), parallel),
    {
        let mut updates = channel::drain(&self.graph.source_rx);
        let mut given = given;
        let ghost g0 = given@;
        let ghost arrived = updates@;
        updates.append(&mut given);
        let mut async_results = self.async_manager.drain_results();
        let ghost ks = async_results@.map_values(|p: (NodeId, V)| p.0@);
        let ghost mid = *self;
        let ghost u0 = updates@;
        let ghost a0 = async_results@;
        updates.append(&mut async_results);
        let ghost ups = updates_view(updates@);
        self.run_cycle_with(updates, parallel);
        proof {
            assert(u0 == arrived + g0);
            assert(updates@ == u0 + a0);
            assert(ups.subrange(ups.len() - ks.len() - g0.len(), ups.len() - ks.len()) =~= updates_view(g0)) by {
                assert forall|i: int| 0 <= i < g0.len() implies ups.subrange(
                    ups.len() - ks.len() - g0.len(),
                    ups.len() - ks.len(),
                )[i] == updates_view(g0)[i] by {
                    assert(ups[arrived.len() + i] == (g0[i].0@, g0[i].1));
                }
            }
            assert(ups.skip(ups.len() - ks.len()).map_values(|u: (NodeKey, V)| u.0) =~= ks) by {
                assert forall|i: int| 0 <= i < ks.len() implies ups.skip(ups.len() - ks.len()).map_values(
                    |u: (NodeKey, V)| u.0,
                )[i] == ks[i] by {
                    assert(ups[u0.len() + i] == (a0[i].0@, a0[i].1));
                }
            }
            assert(cycle_on(&mid, &*self, ups, parallel));
        }
    }

    /// Whether every one of `deps` has a value.
    fn all_have_values(&self, deps: &Vec<NodeId>) -> (r: bool)
        requires
            self.graph.wf(),
        ensures
            r == (forall|i: int| 0 <= i < deps@.len() ==> self.graph.values().contains_key(#[trigger] deps@[i]@)),
    {
        let mut i: usize = 0;
        while i < deps.len()
            invariant
                self.graph.wf(),
                i <= deps@.len(),
                forall|t: int| 0 <= t < i ==> self.graph.values().contains_key(#[trigger] deps@[t]@),
            decreases deps@.len() - i,
        {
            if !self.graph.value_store.contains(&deps[i]) {
                return false;
            }
            i = i + 1;
        }
        true
    }

    /// Recursively activate a node and its dependencies.
    fn activate_node(&mut self, id: &NodeId, Ghost(rank): Ghost<spec_fn(NodeKey) -> nat>)
        requires
            old(self).wf(),
        ensures
            final(self).wf(),
            old(self).activation_frame(&*final(self)),
            old(self).activation_closed(&*final(self)),
            old(self).graph.nodes().contains_key(id@) ==> final(self).active@.contains(id@),
            forall|x: NodeKey| #[trigger]
                old(self).newly_active(&*final(self), x) ==> old(self).graph.nodes().contains_key(id@) && (old(
                    self,
                ).registry_ranked(rank) ==> rank(x) <= rank(id@)),
            old(self).registry_ranked(rank) ==> forall|x: NodeKey| #[trigger]
                old(self).newly_active(&*final(self), x) && old(self).graph.nodes()[x].kind == NodeKind::Compute
                    ==> old(self).initial_value(&*final(self), x),
            forall|x: NodeKey| #[trigger]
                old(self).newly_active(&*final(self), x) && old(self).graph.nodes()[x].kind == NodeKind::Source
                    ==> (final(self).guards.view().contains_key(x) <==> old(self).graph.nodes()[x].node_impl.gives_guard()),
            forall|x: NodeKey|
                !old(self).newly_active(&*final(self), x) && #[trigger] old(self).graph.nodes().contains_key(x)
                    ==> final(self).graph.nodes()[x] == old(self).graph.nodes()[x],
        decreases old(self).graph.nodes().dom().len() - old(self).active@.len(),
    {
        if self.active.contains(id) {
            return;
        }
        let (deps, kind) = match self.graph.get_entry(id) {
            Some(e) => (clone_ids(&e.deps), e.kind),
            None => {
                return;
            },
        };
        let ghost k = id@;
        proof {
            self.graph.entries.lemma_dom_len();
            self.active.lemma_len();
            vstd::set_lib::lemma_len_subset(self.active@, self.graph.nodes().dom());
        }
        self.topology.add_node(id.clone(), clone_ids(&deps));
        self.active.insert(id.clone());
        let ghost mid = *self;
        proof {
            assert(self.active@ == old(self).active@.insert(k));
            assert(self.active@ =~= self.topology.deps_view().dom());
            assert(old(self).activation_frame(&mid));
        }
        let mut i: usize = 0;
        while i < deps.len()
            invariant
                self.wf(),
                old(self).wf(),
                0 <= i <= deps@.len(),
                ids_view(deps@) == deps_keys(old(self).graph.nodes()[k]),
                old(self).graph.nodes().contains_key(k),
                old(self).graph.nodes()[k].kind == kind,
                !old(self).active@.contains(k),
                self.active@.contains(k),
                old(self).activation_frame(&*self),
                forall|j: NodeKey, d: NodeKey|
                    #![trigger old(self).newly_active(&*self, j), deps_keys(old(self).graph.nodes()[j]).contains(d)]
                    old(self).newly_active(&*self, j) && j != k && deps_keys(old(self).graph.nodes()[j]).contains(d)
                        && old(self).graph.nodes().contains_key(d) ==> self.active@.contains(d),
                forall|t: int|
                    0 <= t < i && old(self).graph.nodes().contains_key(#[trigger] deps@[t]@) ==> self.active@.contains(deps@[t]@),
                forall|x: NodeKey| #[trigger]
                    same_value(old(self).graph.values(), self.graph.values(), x) || (old(self).newly_active(&*self, x)
                        && x != k && old(self).graph.nodes()[x].kind == NodeKind::Compute),
                forall|x: NodeKey| #[trigger]
                    self.guards.view().contains_key(x) ==> old(self).guards.view().contains_key(x) || (
                    old(self).newly_active(&*self, x) && x != k && old(self).graph.nodes()[x].kind == NodeKind::Source),
                old(self).registry_ranked(rank) ==> forall|x: NodeKey| #[trigger]
                    old(self).newly_active(&*self, x) && x != k ==> rank(x) < rank(k),
                old(self).registry_ranked(rank) ==> forall|x: NodeKey| #[trigger]
                    old(self).newly_active(&*self, x) && x != k && old(self).graph.nodes()[x].kind
                        == NodeKind::Compute ==> old(self).initial_value(&*self, x),
                forall|x: NodeKey| #[trigger]
                    old(self).newly_active(&*self, x) && x != k && old(self).graph.nodes()[x].kind == NodeKind::Source
                        ==> (self.guards.view().contains_key(x) <==> old(self).graph.nodes()[x].node_impl.gives_guard()),
                forall|x: NodeKey|
                    !old(self).newly_active(&*self, x) && #[trigger] old(self).graph.nodes().contains_key(x)
                        ==> self.graph.nodes()[x] == old(self).graph.nodes()[x],
                self.graph.nodes()[k] == old(self).graph.nodes()[k],
                !self.guards.view().contains_key(k),
            decreases deps@.len() - i,
        {
            let ghost before = *self;
            proof {
                self.graph.entries.lemma_dom_len();
                self.active.lemma_len();
                old(self).active.lemma_len();
                vstd::set_lib::lemma_len_subset(old(self).active@.insert(k), self.active@);
                vstd::set_lib::lemma_len_subset(self.active@, self.graph.nodes().dom());
                assert(self.graph.nodes().dom() == old(self).graph.nodes().dom());
            }
            self.activate_node(&deps[i], Ghost(rank));
            proof {
                let a = old(self);
                let b = before;
                let c = *self;
                assert(c.graph.nodes()[k] == b.graph.nodes()[k]);
                assert forall|x: NodeKey|
                    !a.newly_active(&c, x) && #[trigger] a.graph.nodes().contains_key(x) implies c.graph.nodes()[x]
                        == a.graph.nodes()[x] by {
                    assert(b.graph.nodes().contains_key(x));
                    assert(!b.newly_active(&c, x));
                }
                assert forall|x: NodeKey| #[trigger]
                    a.newly_active(&c, x) && x != k && a.graph.nodes()[x].kind == NodeKind::Source implies (
                    c.guards.view().contains_key(x) <==> a.graph.nodes()[x].node_impl.gives_guard()) by {
                    if b.active@.contains(x) {
                        assert(a.newly_active(&b, x));
                        if c.guards.view().contains_key(x) {
                            assert(b.guards.view().contains_key(x));
                        }
                    } else {
                        assert(b.newly_active(&c, x));
                        assert(b.graph.nodes()[x] == a.graph.nodes()[x]);
                    }
                }
                assert(!c.guards.view().contains_key(k));
                if a.registry_ranked(rank) {
                    Self::lemma_ranked_kept(&a, &b, rank);
                    assert forall|x: NodeKey| #[trigger] a.newly_active(&c, x) && x != k implies rank(x) < rank(k) by {
                        if !b.active@.contains(x) {
                            assert(b.newly_active(&c, x));
                            assert(b.graph.nodes().contains_key(deps@[i as int]@));
                            assert(ids_view(deps@)[i as int] == deps@[i as int]@);
                            assert(deps_keys(a.graph.nodes()[k]).contains(deps@[i as int]@));
                        } else {
                            assert(a.newly_active(&b, x));
                        }
                    }
                    assert forall|x: NodeKey| #[trigger]
                        a.newly_active(&c, x) && x != k && a.graph.nodes()[x].kind == NodeKind::Compute implies a.initial_value(
                        &c,
                        x,
                    ) by {
                        if b.active@.contains(x) {
                            assert(a.newly_active(&b, x));
                            assert(a.initial_value(&b, x));
                            assert forall|d: NodeKey|
                                #[trigger] deps_keys(a.graph.nodes()[x]).contains(d) && a.graph.nodes().contains_key(d)
                                    implies b.active@.contains(d) by {
                                assert(a.newly_active(&b, x) && x != k && deps_keys(a.graph.nodes()[x]).contains(d)
                                    && a.graph.nodes().contains_key(d));
                            }
                            Self::lemma_initial_value_kept(&a, &b, &c, x);
                        } else {
                            assert(b.newly_active(&c, x));
                            assert(b.graph.nodes()[x].kind == a.graph.nodes()[x].kind);
                            assert(b.initial_value(&c, x));
                            Self::lemma_initial_value_from(&a, &b, &c, x);
                        }
                    }
                }
                assert forall|x: NodeKey| #[trigger]
                    same_value(a.graph.values(), c.graph.values(), x) || (a.newly_active(&c, x)
                        && x != k && a.graph.nodes()[x].kind == NodeKind::Compute) by {
                    if !same_value(a.graph.values(), b.graph.values(), x) {
                    } else if !same_value(b.graph.values(), c.graph.values(), x) {
                        assert(b.newly_active(&c, x));
                        assert(b.graph.nodes()[x].kind == a.graph.nodes()[x].kind);
                    }
                }
                assert forall|x: NodeKey| #[trigger]
                    c.guards.view().contains_key(x) implies a.guards.view().contains_key(x) || (
                    a.newly_active(&c, x) && x != k && a.graph.nodes()[x].kind == NodeKind::Source) by {
                    if !b.guards.view().contains_key(x) {
                        assert(b.newly_active(&c, x));
                        assert(b.graph.nodes()[x].kind == a.graph.nodes()[x].kind);
                    }
                }
                assert forall|j: NodeKey, d: NodeKey|
                    a.newly_active(&c, j) && j != k && deps_keys(a.graph.nodes()[j]).contains(d)
                        && a.graph.nodes().contains_key(d) implies c.active@.contains(d) by {
                    if b.active@.contains(j) {
                        assert(a.newly_active(&b, j));
                        assert(b.active@.contains(d));
                        assert(b.active@.subset_of(c.active@));
                    } else {
                        assert(b.newly_active(&c, j));
                        assert(b.graph.nodes()[j].deps == a.graph.nodes()[j].deps);
                        assert(deps_keys(b.graph.nodes()[j]).contains(d));
                        assert(b.graph.nodes().contains_key(d));
                    }
                }
                assert(a.activation_frame(&c));
            }
            i = i + 1;
        }
        proof {
            assert forall|j: NodeKey, d: NodeKey|
                old(self).newly_active(&*self, j) && deps_keys(old(self).graph.nodes()[j]).contains(d)
                    && old(self).graph.nodes().contains_key(d) implies self.active@.contains(d) by {
                if j == k {
                    let t = choose|t: int| 0 <= t < ids_view(deps@).len() && ids_view(deps@)[t] == d;
                    assert(deps@[t]@ == d);
                }
            }
        }
        let ghost after_deps = *self;
        assert(old(self).activation_frame(&after_deps));
        if kind == NodeKind::Source {
            let guard = match self.graph.entries.remove(id) {
                Some(mut e) => {
                    assert(e == old(self).graph.nodes()[k]);
                    let g = e.node_impl.activate(id, &self.graph.source_tx);
                    let ghost e1 = e;
                    self.graph.entries.insert(id.clone(), e);
                    proof {
                        assert(self.graph.nodes() =~= after_deps.graph.nodes().insert(k, e1));
                        assert(same_registry(after_deps.graph.nodes(), self.graph.nodes()));
                    }
                    g
                },
                None => None,
            };
            let ghost gm = self.guards.view();
            assert(gm == after_deps.guards.view());
            match guard {
                Some(g) => {
                    self.guards.insert(id.clone(), g);
                    proof {
                        lemma_insert_keys(gm, k, g);
                    }
                },
                None => {},
            }
            assert(self.guards.view().contains_key(k) <==> old(self).graph.nodes()[k].node_impl.gives_guard());
        } else if kind == NodeKind::Compute {
            let ghost e0 = old(self).graph.nodes()[k];
            let ghost dk = deps_keys(e0);
            proof {
                assert(self.graph.nodes()[k] == e0);
                if old(self).registry_ranked(rank) {
                    assert(!dk.contains(k));
                }
            }
            if self.all_have_values(&deps) {
                let ghost mv = self.graph.values();
                let r = match self.graph.get_entry(id) {
                    Some(e) => e.node_impl.compute(deps.as_slice(), &self.graph.value_store),
                    None => None,
                };
                proof {
                    self.computed@ = self.computed@.push(k);
                }
                assert(e0.node_impl.computes(inputs_of(dk, mv), r));
                match r {
                    Some(v) => {
                        let ghost vm = self.graph.values();
                        self.graph.value_store.set_by_id(id, v);
                        proof {
                            lemma_insert_keys(vm, k, v);
                        }
                    },
                    None => {},
                }
                proof {
                    if old(self).registry_ranked(rank) {
                        let vals = self.graph.values();
                        assert forall|t: int| 0 <= t < dk.len() implies same_value(mv, vals, #[trigger] dk[t]) by {
                            assert(dk.contains(dk[t]));
                        }
                        assert(inputs_of(dk, mv) =~= inputs_of(dk, vals));
                        assert forall|t: int| 0 <= t < dk.len() implies vals.contains_key(#[trigger] dk[t]) by {
                            assert(dk[t] == deps@[t]@);
                        }
                        assert(e0.node_impl.computes(inputs_of(dk, vals), r));
                        assert(old(self).initial_value(&*self, k));
                    }
                }
            } else {
                proof {
                    if old(self).registry_ranked(rank) {
                        let t = choose|t: int| 0 <= t < deps@.len() && !self.graph.values().contains_key(#[trigger] deps@[t]@);
                        assert(dk[t] == deps@[t]@);
                        assert(old(self).initial_value(&*self, k));
                    }
                }
            }
        }
        proof {
            let a = old(self);
            let m = after_deps;
            assert(same_registry(m.graph.nodes(), self.graph.nodes()));
            assert forall|x: NodeKey| #[trigger] a.newly_active(&*self, x) implies a.graph.nodes().contains_key(k) && (
            a.registry_ranked(rank) ==> rank(x) <= rank(k)) by {
                if x != k {
                    assert(a.newly_active(&m, x));
                }
            }
            if a.registry_ranked(rank) {
                assert forall|x: NodeKey| #[trigger]
                    a.newly_active(&*self, x) && a.graph.nodes()[x].kind == NodeKind::Compute implies a.initial_value(
                    &*self,
                    x,
                ) by {
                    if x != k {
                        assert(a.newly_active(&m, x));
                        assert(a.initial_value(&m, x));
                        assert(rank(x) < rank(k));
                        assert(same_value(m.graph.values(), self.graph.values(), x));
                        assert forall|d: NodeKey| #[trigger] deps_keys(a.graph.nodes()[x]).contains(d) implies same_value(
                            m.graph.values(),
                            self.graph.values(),
                            d,
                        ) by {
                            if d == k {
                                assert(a.graph.nodes().contains_key(x));
                            }
                        }
                        Self::lemma_initial_value_moved(&a, &m, &*self, x);
                    }
                }
            }
            assert forall|x: NodeKey| #[trigger]
                same_value(a.graph.values(), self.graph.values(), x) || (a.newly_active(&*self, x)
                    && a.graph.nodes()[x].kind == NodeKind::Compute) by {
                if x == k {
                    assert(same_value(a.graph.values(), m.graph.values(), k));
                    assert(a.newly_active(&*self, k));
                    if kind != NodeKind::Compute {
                        assert(same_value(m.graph.values(), self.graph.values(), k));
                    }
                } else {
                    assert(same_value(m.graph.values(), self.graph.values(), x));
                    assert(same_value(a.graph.values(), m.graph.values(), x) || (a.newly_active(&m, x)
                        && a.graph.nodes()[x].kind == NodeKind::Compute));
                    assert(self.active@ == m.active@);
                }
            }
            assert forall|x: NodeKey| #[trigger]
                self.guards.view().contains_key(x) implies a.guards.view().contains_key(x) || (
                a.newly_active(&*self, x) && a.graph.nodes()[x].kind == NodeKind::Source) by {
                if x != k {
                    assert(m.guards.view().contains_key(x));
                }
            }
            assert forall|x: NodeKey| #[trigger]
                a.newly_active(&*self, x) && a.graph.nodes()[x].kind == NodeKind::Source implies (
                self.guards.view().contains_key(x) <==> a.graph.nodes()[x].node_impl.gives_guard()) by {
                if x != k {
                    assert(a.newly_active(&m, x));
                    assert(self.guards.view().contains_key(x) == m.guards.view().contains_key(x));
                }
            }
            assert forall|x: NodeKey| #[trigger]
                self.guards.view().contains_key(x) implies self.active@.contains(x)
                    && self.graph.nodes()[x].kind == NodeKind::Source by {
                if x != k {
                    assert(m.guards.view().contains_key(x));
                }
            }
            assert forall|x: NodeKey| #[trigger]
                self.active@.contains(x) implies self.graph.nodes().contains_key(x)
                    && self.topology.deps_view()[x] == deps_keys(self.graph.nodes()[x]) by {
                assert(m.active@.contains(x));
            }
        }
    }
}

} // verus!
