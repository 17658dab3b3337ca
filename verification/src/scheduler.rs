use crate::engine::deps_keys;
use crate::graph::{inputs_of, NodeEntry, NodeKind};
use crate::id_map::{IdMap, IdSet};
use crate::node_ref::{ids_view, NodeId, NodeKey};
use crate::topology::{
    count_between, count_members, count_of, lemma_count_between_insert, lemma_count_between_witness,
    lemma_count_between_zero, lemma_count_of_take, Topology,
};
use crate::value_store::ValueStore;
use vstd::prelude::*;

verus! {

/// What running node `k` on `store` may give: a compute node's output,
/// nothing for any other node.
pub open spec fn single_output<V, W>(
    nodes: Map<NodeKey, NodeEntry<V, W>>,
    k: NodeKey,
    store: Map<NodeKey, V>,
    out: Option<V>,
) -> bool {
    if nodes.contains_key(k) && nodes[k].kind == NodeKind::Compute {
        nodes[k].node_impl.computes(inputs_of(deps_keys(nodes[k]), store), out)
    } else {
        out is None
    }
}

/// `store` with the outputs `outs` of the nodes `wave` written in, in order.
pub open spec fn write_outputs<V>(store: Map<NodeKey, V>, wave: Seq<NodeKey>, outs: Seq<Option<V>>) -> Map<NodeKey, V>
    decreases wave.len(),
{
    if wave.len() == 0 || outs.len() == 0 {
        store
    } else {
        let s = write_outputs(store, wave.drop_last(), outs.drop_last());
        match outs.last() {
            Some(v) => s.insert(wave.last(), v),
            None => s,
        }
    }
}

/// One wave: every node of `wave` runs on `before`, and their outputs are
/// written together afterwards.
pub open spec fn wave_step<V, W>(
    nodes: Map<NodeKey, NodeEntry<V, W>>,
    wave: Seq<NodeKey>,
    before: Map<NodeKey, V>,
    after: Map<NodeKey, V>,
) -> bool {
    exists|outs: Seq<Option<V>>|
        #![trigger write_outputs(before, wave, outs)]
        outs.len() == wave.len() && (forall|i: int|
            0 <= i < wave.len() ==> #[trigger] single_output(nodes, wave[i], before, outs[i])) && after
            == write_outputs(before, wave, outs)
}

/// The positions `wave` of `sorted`, as nodes.
pub open spec fn wave_nodes(sorted: Seq<NodeKey>, wave: Seq<int>) -> Seq<NodeKey> {
    wave.map_values(|i: int| sorted[i])
}

/// The waves (positions in `sorted`) run one after the other along `trace`,
/// and no position runs twice.
pub open spec fn runs_in_waves<V, W>(
    nodes: Map<NodeKey, NodeEntry<V, W>>,
    sorted: Seq<NodeKey>,
    waves: Seq<Seq<int>>,
    trace: Seq<Map<NodeKey, V>>,
) -> bool {
    &&& trace.len() == waves.len() + 1
    &&& forall|w: int|
        0 <= w < waves.len() ==> #[trigger] wave_step(nodes, wave_nodes(sorted, waves[w]), trace[w], trace[w + 1])
    &&& forall|w: int, i: int|
        0 <= w < waves.len() && 0 <= i < waves[w].len() ==> 0 <= #[trigger] waves[w][i] < sorted.len()
    &&& waves.flatten().no_duplicates()
}

/// The sink calls of running the nodes `ks` in order on `store`: each
/// registered sink, with the values its dependencies have there.
pub open spec fn sink_calls_on<V, W>(
    nodes: Map<NodeKey, NodeEntry<V, W>>,
    ks: Seq<NodeKey>,
    store: Map<NodeKey, V>,
) -> Seq<(NodeKey, Seq<Option<V>>)>
    decreases ks.len(),
{
    if ks.len() == 0 {
        seq![]
    } else {
        let rest = sink_calls_on(nodes, ks.drop_last(), store);
        let k = ks.last();
        if nodes.contains_key(k) && nodes[k].kind == NodeKind::Sink {
            rest.push((k, inputs_of(deps_keys(nodes[k]), store)))
        } else {
            rest
        }
    }
}

/// The sink calls of a run in waves along `trace`: wave after wave, the
/// calls of its nodes, in order, on the store from before the wave.
pub open spec fn wave_sink_calls<V, W>(
    nodes: Map<NodeKey, NodeEntry<V, W>>,
    sorted: Seq<NodeKey>,
    waves: Seq<Seq<int>>,
    trace: Seq<Map<NodeKey, V>>,
) -> Seq<(NodeKey, Seq<Option<V>>)>
    decreases waves.len(),
{
    if waves.len() == 0 {
        seq![]
    } else {
        wave_sink_calls(nodes, sorted, waves.drop_last(), trace) + sink_calls_on(
            nodes,
            wave_nodes(sorted, waves.last()),
            trace[waves.len() - 1],
        )
    }
}

/// The compute nodes among `ks`, in order: those whose computation running
/// `ks` invokes.
pub open spec fn computes_of<V, W>(nodes: Map<NodeKey, NodeEntry<V, W>>, ks: Seq<NodeKey>) -> Seq<NodeKey>
    decreases ks.len(),
{
    if ks.len() == 0 {
        seq![]
    } else {
        let rest = computes_of(nodes, ks.drop_last());
        let k = ks.last();
        if nodes.contains_key(k) && nodes[k].kind == NodeKind::Compute {
            rest.push(k)
        } else {
            rest
        }
    }
}

/// The computations a run in waves invokes: wave after wave, its compute
/// nodes in order.
pub open spec fn wave_computes<V, W>(
    nodes: Map<NodeKey, NodeEntry<V, W>>,
    sorted: Seq<NodeKey>,
    waves: Seq<Seq<int>>,
) -> Seq<NodeKey>
    decreases waves.len(),
{
    if waves.len() == 0 {
        seq![]
    } else {
        wave_computes(nodes, sorted, waves.drop_last()) + computes_of(nodes, wave_nodes(sorted, waves.last()))
    }
}

/// Running one more node adds its own computation.
proof fn lemma_computes_of_push<V, W>(nodes: Map<NodeKey, NodeEntry<V, W>>, ks: Seq<NodeKey>, k: NodeKey)
    ensures
        computes_of(nodes, ks.push(k)) == computes_of(nodes, ks) + computes_of(nodes, seq![k]),
{
    assert(ks.push(k).drop_last() =~= ks);
    assert(seq![k].drop_last() =~= Seq::<NodeKey>::empty());
    assert(computes_of(nodes, Seq::<NodeKey>::empty()) =~= Seq::<NodeKey>::empty());
    assert(computes_of(nodes, ks) + Seq::<NodeKey>::empty() =~= computes_of(nodes, ks));
    assert(computes_of(nodes, ks).push(k) =~= computes_of(nodes, ks) + seq![k]);
}

/// A node whose computation running `ks` invokes is one of `ks`.
proof fn lemma_computes_of_within<V, W>(nodes: Map<NodeKey, NodeEntry<V, W>>, ks: Seq<NodeKey>, x: NodeKey)
    requires
        computes_of(nodes, ks).contains(x),
    ensures
        ks.contains(x),
    decreases ks.len(),
{
    if ks.len() > 0 {
        let rest = computes_of(nodes, ks.drop_last());
        if rest.contains(x) {
            lemma_computes_of_within(nodes, ks.drop_last(), x);
            let i = choose|i: int| 0 <= i < ks.drop_last().len() && ks.drop_last()[i] == x;
            assert(ks[i] == x);
        } else {
            assert(x == ks.last());
            assert(ks[ks.len() - 1] == x);
        }
    }
}

/// Running distinct nodes invokes each computation at most once.
proof fn lemma_computes_of_unique<V, W>(nodes: Map<NodeKey, NodeEntry<V, W>>, ks: Seq<NodeKey>)
    requires
        ks.no_duplicates(),
    ensures
        computes_of(nodes, ks).no_duplicates(),
    decreases ks.len(),
{
    if ks.len() > 0 {
        let front = ks.drop_last();
        assert(front.no_duplicates()) by {
            assert forall|a: int, b: int| 0 <= a < b < front.len() implies front[a] != front[b] by {
                assert(ks[a] != ks[b]);
            }
        }
        lemma_computes_of_unique(nodes, front);
        if computes_of(nodes, front).contains(ks.last()) {
            lemma_computes_of_within(nodes, front, ks.last());
            let i = choose|i: int| 0 <= i < front.len() && front[i] == ks.last();
            assert(ks[i] == ks[ks.len() - 1]);
        }
    }
}

/// A node whose computation a run in waves invokes sits at a position of one
/// of the waves.
proof fn lemma_wave_computes_within<V, W>(
    nodes: Map<NodeKey, NodeEntry<V, W>>,
    sorted: Seq<NodeKey>,
    waves: Seq<Seq<int>>,
    x: NodeKey,
)
    requires
        wave_computes(nodes, sorted, waves).contains(x),
        forall|w: int, i: int| 0 <= w < waves.len() && 0 <= i < waves[w].len() ==> 0 <= #[trigger] waves[w][i] < sorted.len(),
    ensures
        exists|p: int| waves.flatten().contains(p) && 0 <= p < sorted.len() && sorted[p] == x,
    decreases waves.len(),
{
    let front = waves.drop_last();
    let w = waves.last();
    assert(front.push(w) =~= waves);
    front.lemma_flatten_push(w);
    assert forall|v: int, i: int| 0 <= v < front.len() && 0 <= i < front[v].len() implies 0 <= #[trigger] front[v][i]
        < sorted.len() by {
        assert(front[v] == waves[v]);
    }
    let a = wave_computes(nodes, sorted, front);
    let b = computes_of(nodes, wave_nodes(sorted, w));
    let i = choose|i: int| 0 <= i < (a + b).len() && (a + b)[i] == x;
    if i < a.len() {
        assert(a.contains(x));
        lemma_wave_computes_within(nodes, sorted, front, x);
        let p = choose|p: int| front.flatten().contains(p) && 0 <= p < sorted.len() && sorted[p] == x;
        let j = choose|j: int| 0 <= j < front.flatten().len() && front.flatten()[j] == p;
        assert(waves.flatten()[j] == p);
    } else {
        assert(b[i - a.len()] == x);
        assert(b.contains(x));
        lemma_computes_of_within(nodes, wave_nodes(sorted, w), x);
        let q = choose|q: int| 0 <= q < wave_nodes(sorted, w).len() && wave_nodes(sorted, w)[q] == x;
        assert(waves.flatten()[front.flatten().len() + q] == w[q]);
        assert(waves[waves.len() - 1] == w);
        assert(0 <= w[q] < sorted.len());
    }
}

/// A run in waves over distinct nodes, each position in at most one wave,
/// invokes each computation at most once.
pub proof fn lemma_wave_computes_unique<V, W>(
    nodes: Map<NodeKey, NodeEntry<V, W>>,
    sorted: Seq<NodeKey>,
    waves: Seq<Seq<int>>,
)
    requires
        sorted.no_duplicates(),
        waves.flatten().no_duplicates(),
        forall|w: int, i: int| 0 <= w < waves.len() && 0 <= i < waves[w].len() ==> 0 <= #[trigger] waves[w][i] < sorted.len(),
    ensures
        wave_computes(nodes, sorted, waves).no_duplicates(),
    decreases waves.len(),
{
    if waves.len() > 0 {
        let front = waves.drop_last();
        let w = waves.last();
        assert(front.push(w) =~= waves);
        front.lemma_flatten_push(w);
        let ff = front.flatten();
        assert(ff.no_duplicates()) by {
            assert forall|a: int, b: int| 0 <= a < b < ff.len() implies ff[a] != ff[b] by {
                assert(waves.flatten()[a] == ff[a]);
                assert(waves.flatten()[b] == ff[b]);
            }
        }
        assert forall|v: int, i: int| 0 <= v < front.len() && 0 <= i < front[v].len() implies 0 <= #[trigger] front[v][i]
            < sorted.len() by {
            assert(front[v] == waves[v]);
        }
        lemma_wave_computes_unique(nodes, sorted, front);
        let wn = wave_nodes(sorted, w);
        assert(wn.no_duplicates()) by {
            assert forall|a: int, b: int| 0 <= a < b < wn.len() implies wn[a] != wn[b] by {
                assert(waves.flatten()[ff.len() + a] == w[a]);
                assert(waves.flatten()[ff.len() + b] == w[b]);
                assert(w[a] != w[b]);
                assert(waves[waves.len() - 1] == w);
                assert(0 <= w[a] < sorted.len() && 0 <= w[b] < sorted.len());
            }
        }
        lemma_computes_of_unique(nodes, wn);
        let a = wave_computes(nodes, sorted, front);
        let b = computes_of(nodes, wn);
        assert forall|i: int, j: int| 0 <= i < j < (a + b).len() implies (a + b)[i] != (a + b)[j] by {
            if j >= a.len() && i < a.len() {
                let x = a[i];
                if b[j - a.len()] == x {
                    assert(a.contains(x));
                    assert(b.contains(x));
                    lemma_wave_computes_within(nodes, sorted, front, x);
                    let p = choose|p: int| ff.contains(p) && 0 <= p < sorted.len() && sorted[p] == x;
                    lemma_computes_of_within(nodes, wn, x);
                    let q = choose|q: int| 0 <= q < wn.len() && wn[q] == x;
                    let jp = choose|jp: int| 0 <= jp < ff.len() && ff[jp] == p;
                    assert(waves.flatten()[jp] == p);
                    assert(waves.flatten()[ff.len() + q] == w[q]);
                    assert(waves[waves.len() - 1] == w);
                    assert(0 <= w[q] < sorted.len());
                    assert(sorted[p] == sorted[w[q]]);
                    assert(p == w[q]);
                }
            }
        }
    }
}

/// The sink calls of a run in waves read only the stores before its waves.
proof fn lemma_wave_sink_calls_prefix<V, W>(
    nodes: Map<NodeKey, NodeEntry<V, W>>,
    sorted: Seq<NodeKey>,
    waves: Seq<Seq<int>>,
    t1: Seq<Map<NodeKey, V>>,
    t2: Seq<Map<NodeKey, V>>,
)
    requires
        t1.len() >= waves.len(),
        t2.len() >= waves.len(),
        forall|w: int| 0 <= w < waves.len() ==> t1[w] == t2[w],
    ensures
        wave_sink_calls(nodes, sorted, waves, t1) == wave_sink_calls(nodes, sorted, waves, t2),
    decreases waves.len(),
{
    if waves.len() > 0 {
        lemma_wave_sink_calls_prefix(nodes, sorted, waves.drop_last(), t1, t2);
        assert(t1[waves.len() - 1] == t2[waves.len() - 1]);
    }
}

/// Running one more node adds its own sink call.
proof fn lemma_sink_calls_on_push<V, W>(
    nodes: Map<NodeKey, NodeEntry<V, W>>,
    ks: Seq<NodeKey>,
    k: NodeKey,
    store: Map<NodeKey, V>,
)
    ensures
        sink_calls_on(nodes, ks.push(k), store) == sink_calls_on(nodes, ks, store) + sink_calls_on(
            nodes,
            seq![k],
            store,
        ),
{
    assert(ks.push(k).drop_last() =~= ks);
    assert(seq![k].drop_last() =~= Seq::<NodeKey>::empty());
    assert(sink_calls_on(nodes, Seq::<NodeKey>::empty(), store) =~= Seq::empty());
    assert(sink_calls_on(nodes, ks, store) + Seq::<(NodeKey, Seq<Option<V>>)>::empty() =~= sink_calls_on(
        nodes,
        ks,
        store,
    ));
    if nodes.contains_key(k) && nodes[k].kind == NodeKind::Sink {
        assert(sink_calls_on(nodes, ks, store).push((k, inputs_of(deps_keys(nodes[k]), store))) =~= sink_calls_on(
            nodes,
            ks,
            store,
        ) + seq![(k, inputs_of(deps_keys(nodes[k]), store))]);
    }
}

/// How many entries of `s` are false.
pub open spec fn count_false(s: Seq<bool>) -> nat
    decreases s.len(),
{
    if s.len() == 0 {
        0
    } else {
        count_false(s.drop_last()) + if s.last() {
            0nat
        } else {
            1nat
        }
    }
}

/// The keys of the positions of `sv` marked in `done`.
pub open spec fn done_keys(sv: Seq<NodeKey>, done: Seq<bool>) -> Set<NodeKey> {
    Set::new(|k: NodeKey| exists|p: int| 0 <= p < done.len() && done[p] && #[trigger] sv[p] == k)
}

/// Position `p` runs in one of `waves`.
pub open spec fn runs_at(waves: Seq<Seq<int>>, p: int) -> bool {
    exists|w: int, i: int| 0 <= w < waves.len() && 0 <= i < waves[w].len() && #[trigger] waves[w][i] == p
}

/// Inside `dirty` the topology lists each edge on both of its ends as often,
/// and `sv` names distinct members of `dirty`.
pub open spec fn ordered_input(topology: &Topology, sv: Seq<NodeKey>, dirty: Set<NodeKey>) -> bool {
    &&& topology.consistent_on(dirty)
    &&& sv.no_duplicates()
    &&& forall|i: int| 0 <= i < sv.len() ==> dirty.contains(#[trigger] sv[i])
}

/// Every dependency inside `dirty` of a node that runs in a wave ran in an
/// earlier wave.
pub open spec fn waves_in_order(
    topology: &Topology,
    sv: Seq<NodeKey>,
    waves: Seq<Seq<int>>,
    dirty: Set<NodeKey>,
) -> bool {
    forall|w: int, i: int, d: NodeKey|
        0 <= w < waves.len() && 0 <= i < waves[w].len() && dirty.contains(d) && #[trigger] topology.deps_of(
            sv[waves[w][i]],
        ).contains(d) ==> exists|w2: int, i2: int|
            0 <= w2 < w && 0 <= i2 < waves[w2].len() && #[trigger] sv[waves[w2][i2]] == d
}

proof fn lemma_count_false_update(s: Seq<bool>, i: int)
    requires
        0 <= i < s.len(),
        !s[i],
    ensures
        count_false(s.update(i, true)) + 1 == count_false(s),
    decreases s.len(),
{
    let t = s.update(i, true);
    if i < s.len() - 1 {
        assert(t.drop_last() =~= s.drop_last().update(i, true));
        lemma_count_false_update(s.drop_last(), i);
    } else {
        assert(t.drop_last() =~= s.drop_last());
    }
}

proof fn lemma_count_false_pos(s: Seq<bool>, i: int)
    requires
        0 <= i < s.len(),
        !s[i],
    ensures
        count_false(s) > 0,
    decreases s.len(),
{
    if i < s.len() - 1 {
        lemma_count_false_pos(s.drop_last(), i);
    }
}

proof fn lemma_first_false(s: Seq<bool>) -> (i: int)
    requires
        count_false(s) > 0,
    ensures
        0 <= i < s.len(),
        !s[i],
        forall|j: int| 0 <= j < i ==> s[j],
    decreases s.len(),
{
    if count_false(s.drop_last()) > 0 {
        let i = lemma_first_false(s.drop_last());
        assert forall|j: int| 0 <= j < i implies s[j] by {
            assert(s[j] == s.drop_last()[j]);
        }
        i
    } else {
        assert forall|j: int| 0 <= j < s.len() - 1 implies s[j] by {
            assert(s[j] == s.drop_last()[j]);
            if !s[j] {
                lemma_count_false_pos(s.drop_last(), j);
            }
        }
        s.len() - 1
    }
}

/// Ready-count scheduler: runs the nodes of a cycle in waves; a node joins a
/// wave once all of its dirty dependencies have run.
pub struct Scheduler;

impl Scheduler {
    /// Run one node on the store: a compute node computes, a sink emits, any
    /// other node does nothing.
    /// Also gives the sink call it made, if any.
    fn execute_single<V, W>(entries: &IdMap<NodeEntry<V, W>>, value_store: &ValueStore<V>, node_id: &NodeId) -> (r: (
        Option<V>,
        Ghost<Seq<(NodeKey, Seq<Option<V>>)>>,
        Ghost<Seq<NodeKey>>,
    ))
        requires
            entries.wf(),
            value_store.wf(),
        ensures
            single_output(entries.view(), node_id@, value_store.view(), r.0),
            r.1@ == sink_calls_on(entries.view(), seq![node_id@], value_store.view()),
            r.2@ == computes_of(entries.view(), seq![node_id@]),
    {
        proof {
            assert(seq![node_id@].drop_last() =~= Seq::<NodeKey>::empty());
            assert(seq![node_id@].last() == node_id@);
            assert(sink_calls_on(entries.view(), Seq::<NodeKey>::empty(), value_store.view()) =~= Seq::<
                (NodeKey, Seq<Option<V>>),
            >::empty());
            assert(computes_of(entries.view(), Seq::<NodeKey>::empty()) =~= Seq::<NodeKey>::empty());
        }
        match entries.get(node_id) {
            Some(entry) => {
                match entry.kind {
                    NodeKind::Compute => {
                        let out = entry.node_impl.compute(entry.deps.as_slice(), value_store);
                        let ghost k = node_id@;
                        assert(Seq::<NodeKey>::empty().push(k) =~= computes_of(entries.view(), seq![node_id@]));
                        (out, Ghost(Seq::empty()), Ghost(Seq::empty().push(k)))
                    },
                    NodeKind::Sink => {
                        entry.node_impl.emit(entry.deps.as_slice(), value_store);
                        let ghost call = (node_id@, inputs_of(ids_view(entry.deps@), value_store.view()));
                        assert(Seq::<(NodeKey, Seq<Option<V>>)>::empty().push(call) =~= sink_calls_on(
                            entries.view(),
                            seq![node_id@],
                            value_store.view(),
                        ));
                        (None, Ghost(Seq::empty().push(call)), Ghost(Seq::empty()))
                    },
                    _ => (None, Ghost(Seq::empty()), Ghost(Seq::empty())),
                }
            },
            None => (None, Ghost(Seq::empty()), Ghost(Seq::empty())),
        }
    }

    /// Each dependent of `sorted[p]` that is found in `sorted` counts one
    /// less, never going below zero.
    fn count_down(
        topology: &Topology,
        sorted: &Vec<NodeId>,
        p: usize,
        ready_count: &mut Vec<usize>,
        Ghost(dirty): Ghost<Set<NodeKey>>,
        Ghost(dk): Ghost<Set<NodeKey>>,
    )
        requires
            topology.wf(),
            p < sorted@.len(),
            old(ready_count)@.len() == sorted@.len(),
        ensures
            final(ready_count)@.len() == sorted@.len(),
            ordered_input(topology, ids_view(sorted@), dirty) && !dk.contains(sorted@[p as int]@)
                ==> forall|x: int|
                0 <= x < sorted@.len() && x != p && old(ready_count)@[x] == count_between(
                    #[trigger] topology.deps_of(ids_view(sorted@)[x]),
                    dirty,
                    dk,
                ) ==> final(ready_count)@[x] == count_between(
                    topology.deps_of(ids_view(sorted@)[x]),
                    dirty,
                    dk.insert(sorted@[p as int]@),
                ),
    {
        let ghost sv = ids_view(sorted@);
        let ghost n = sorted@.len();
        let ghost nk = sorted@[p as int]@;
        let ghost cond = ordered_input(topology, sv, dirty) && !dk.contains(nk);
        let ghost rc0 = ready_count@;
        proof {
            topology.lemma_wf();
            topology.lemma_lists(nk);
            assert(sv[p as int] == nk);
            if cond {
                assert(dirty.contains(sv[p as int]));
                assert forall|x: int| 0 <= x < n implies count_between(
                    #[trigger] topology.deps_of(sv[x]),
                    dirty,
                    dk,
                ) == count_between(topology.deps_of(sv[x]), dirty, dk.insert(nk)) + count_of(
                    topology.deps_of(sv[x]),
                    nk,
                ) && count_of(topology.dependents_of(nk), sv[x]) == count_of(topology.deps_of(sv[x]), nk) by {
                    lemma_count_between_insert(topology.deps_of(sv[x]), dirty, dk, nk);
                    assert(dirty.contains(sv[x]));
                    assert(count_of(topology.dependents_of(nk), sv[x]) == count_of(topology.deps_of(sv[x]), nk));
                }
            }
        }
        match topology.dependents.get(&sorted[p]) {
            Some(ds) => {
                let ghost lv = ids_view(ds@);
                assert(lv == topology.dependents_of(nk));
                proof {
                    assert(lv.take(0) =~= Seq::<NodeKey>::empty());
                }
                let mut q: usize = 0;
                while q < ds.len()
                    invariant
                        q <= ds@.len(),
                        lv == ids_view(ds@),
                        lv == topology.dependents_of(nk),
                        ready_count@.len() == n,
                        n == sorted@.len(),
                        sv == ids_view(sorted@),
                        p < n,
                        cond ==> ordered_input(topology, sv, dirty),
                        cond ==> forall|x: int|
                            0 <= x < n && x != p && rc0[x] == count_between(
                                #[trigger] topology.deps_of(sv[x]),
                                dirty,
                                dk,
                            ) ==> ready_count@[x] + count_of(lv.take(q as int), sv[x]) == rc0[x] && count_of(lv, sv[x])
                                <= rc0[x],
                    decreases ds@.len() - q,
                {
                    let ghost rcq = ready_count@;
                    proof {
                        assert forall|x: int| 0 <= x < n implies count_of(lv.take(q + 1), #[trigger] sv[x])
                            == count_of(lv.take(q as int), sv[x]) + if lv[q as int] == sv[x] {
                            1nat
                        } else {
                            0nat
                        } && count_of(lv.take(q + 1), sv[x]) <= count_of(lv, sv[x]) by {
                            lemma_count_of_take(lv, sv[x], q as int);
                            if q + 1 < lv.len() {
                                lemma_count_of_take(lv, sv[x], q + 1);
                            } else {
                                assert(lv.take(q + 1) =~= lv);
                            }
                        }
                    }
                    match Self::position(sorted, &ds[q]) {
                        Some(xx) => {
                            proof {
                                assert(sv[xx as int] == lv[q as int]);
                                if cond && xx != p && rc0[xx as int] == count_between(
                                    topology.deps_of(sv[xx as int]),
                                    dirty,
                                    dk,
                                ) {
                                    assert(ready_count@[xx as int] > 0);
                                }
                            }
                            if ready_count[xx] > 0 {
                                ready_count.set(xx, ready_count[xx] - 1);
                            }
                            proof {
                                if cond {
                                    assert forall|x: int|
                                        0 <= x < n && x != p && rc0[x] == count_between(
                                            #[trigger] topology.deps_of(sv[x]),
                                            dirty,
                                            dk,
                                        ) implies ready_count@[x] + count_of(lv.take(q + 1), sv[x]) == rc0[x] by {
                                        if x != xx {
                                            assert(sv[x] != sv[xx as int]) by {
                                                assert(sv.no_duplicates());
                                            }
                                            assert(ready_count@[x] == rcq[x]);
                                        }
                                    }
                                }
                            }
                        },
                        None => {
                            proof {
                                if cond {
                                    assert forall|x: int| 0 <= x < n implies lv[q as int] != #[trigger] sv[x] by {
                                        assert(sv[x] == sorted@[x]@);
                                        assert(ids_view(sorted@).contains(sv[x]));
                                    }
                                }
                            }
                        },
                    }
                    q = q + 1;
                }
                proof {
                    assert(lv.take(lv.len() as int) =~= lv);
                }
            },
            None => {
                proof {
                    if cond {
                        assert forall|x: int| 0 <= x < n implies count_of(#[trigger] topology.dependents_of(nk), sv[x])
                            == 0 by {
                            assert(topology.dependents_of(nk) =~= Seq::<NodeKey>::empty());
                        }
                    }
                }
            },
        }
    }

    /// The position of `id` in `sorted`, if it is there.
    fn position(sorted: &Vec<NodeId>, id: &NodeId) -> (r: Option<usize>)
        ensures
            match r {
                Some(i) => i < sorted@.len() && sorted@[i as int]@ == id@,
                None => !ids_view(sorted@).contains(id@),
            },
    {
        let mut i: usize = 0;
        while i < sorted.len()
            invariant
                i <= sorted@.len(),
                forall|j: int| 0 <= j < i ==> sorted@[j]@ != id@,
            decreases sorted@.len() - i,
        {
            if sorted[i].same(id) {
                return Some(i);
            }
            i = i + 1;
        }
        proof {
            if ids_view(sorted@).contains(id@) {
                let j = choose|j: int| 0 <= j < ids_view(sorted@).len() && ids_view(sorted@)[j] == id@;
                assert(sorted@[j]@ == id@);
            }
        }
        None
    }

    /// Execute the nodes of `sorted` in waves. Each node starts with the
    /// number of its dependencies that are dirty; a wave holds the nodes
    /// whose number is zero; they all run on the store as it was before the
    /// wave, their values are written afterwards, and each of their dependents
    /// in `sorted` counts one less. It stops when no node is ready. What
    /// comes back records the sinks it called and the computations it
    /// invoked.
    pub fn execute_parallel<V, W>(
        entries: &IdMap<NodeEntry<V, W>>,
        value_store: &mut ValueStore<V>,
        topology: &Topology,
        sorted: &Vec<NodeId>,
        dirty: &IdSet,
    ) -> (calls: (Ghost<Seq<(NodeKey, Seq<Option<V>>)>>, Ghost<Seq<NodeKey>>))
        requires
            entries.wf(),
            old(value_store).wf(),
            topology.wf(),
        ensures
            final(value_store).wf(),
            exists|waves: Seq<Seq<int>>, trace: Seq<Map<NodeKey, V>>|
                #![trigger runs_in_waves(entries.view(), ids_view(sorted@), waves, trace)]
                runs_in_waves(entries.view(), ids_view(sorted@), waves, trace) && trace[0] == old(
                    value_store,
                ).view() && trace.last() == final(value_store).view() && calls.0@ == wave_sink_calls(
                    entries.view(),
                    ids_view(sorted@),
                    waves,
                    trace,
                ) && calls.1@ == wave_computes(entries.view(), ids_view(sorted@), waves) && (ids_view(
                    sorted@,
                ).no_duplicates() ==> calls.1@.no_duplicates()) && (ordered_input(
                    topology,
                    ids_view(sorted@),
                    dirty@,
                ) ==> waves_in_order(topology, ids_view(sorted@), waves, dirty@)) && (ordered_input(
                    topology,
                    ids_view(sorted@),
                    dirty@,
                ) && topology.in_dependency_order(ids_view(sorted@), dirty@) ==> forall|p: int|
                    0 <= p < sorted@.len() ==> #[trigger] runs_at(waves, p)),
    {
        let n = sorted.len();
        let ghost sv = ids_view(sorted@);
        let ghost nodes = entries.view();
        let ghost dd = dirty@;
        let ghost cond0 = ordered_input(topology, sv, dd);
        let ghost mut waves: Seq<Seq<int>> = Seq::empty();
        let ghost mut trace: Seq<Map<NodeKey, V>> = seq![value_store.view()];
        proof {
            topology.lemma_wf();
        }
        let mut ready_count: Vec<usize> = Vec::new();
        let mut done: Vec<bool> = Vec::new();
        let mut i: usize = 0;
        while i < n
            invariant
                topology.wf(),
                i <= n,
                n == sorted@.len(),
                ready_count@.len() == i,
                done@.len() == i,
                forall|j: int| 0 <= j < i ==> !done@[j],
                count_false(done@) == i,
                sv == ids_view(sorted@),
                dd == dirty@,
                forall|j: int|
                    0 <= j < i ==> ready_count@[j] == count_between(
                        #[trigger] topology.deps_of(sv[j]),
                        dd,
                        Set::empty(),
                    ),
            decreases n - i,
        {
            proof {
                topology.lemma_wf();
                topology.lemma_lists(sv[i as int]);
            }
            let c = match topology.deps.get(&sorted[i]) {
                Some(deps) => count_members(deps, dirty),
                None => 0,
            };
            ready_count.push(c);
            let ghost d0 = done@;
            done.push(false);
            assert(done@.drop_last() =~= d0);
            i = i + 1;
        }
        proof {
            assert(done_keys(sv, done@) =~= Set::<NodeKey>::empty());
        }
        let mut remaining: usize = n;
        let mut calls: Ghost<Seq<(NodeKey, Seq<Option<V>>)>> = Ghost(Seq::empty());
        let mut computed: Ghost<Seq<NodeKey>> = Ghost(Seq::empty());
        while remaining > 0
            invariant
                calls@ == wave_sink_calls(nodes, sv, waves, trace),
                computed@ == wave_computes(nodes, sv, waves),
                entries.wf(),
                value_store.wf(),
                topology.wf(),
                n == sorted@.len(),
                sv == ids_view(sorted@),
                nodes == entries.view(),
                ready_count@.len() == n,
                done@.len() == n,
                remaining == count_false(done@),
                runs_in_waves(nodes, sv, waves, trace),
                trace[0] == old(value_store).view(),
                trace.last() == value_store.view(),
                forall|p: int| 0 <= p < n && !done@[p] ==> !waves.flatten().contains(p),
                waves.flatten().no_duplicates(),
                forall|p: int| #![trigger waves.flatten().contains(p)] waves.flatten().contains(p) ==> 0 <= p < n && done@[p],
                dd == dirty@,
                cond0 == ordered_input(topology, sv, dd),
                cond0 ==> forall|x: int|
                    0 <= x < n && !done@[x] ==> ready_count@[x] == count_between(
                        #[trigger] topology.deps_of(sv[x]),
                        dd,
                        done_keys(sv, done@),
                    ),
                cond0 ==> waves_in_order(topology, sv, waves, dd),
                forall|p: int| 0 <= p < n && #[trigger] done@[p] ==> runs_at(waves, p),
            ensures
                cond0 && topology.in_dependency_order(sv, dd) ==> remaining == 0,
            decreases remaining,
        {
            // The wave: the positions not yet run whose count is zero.
            let mut ready: Vec<usize> = Vec::new();
            let mut j: usize = 0;
            while j < n
                invariant
                    j <= n,
                    n == sorted@.len(),
                    ready_count@.len() == n,
                    done@.len() == n,
                    forall|t: int| 0 <= t < ready@.len() ==> (#[trigger] ready@[t]) < j && !done@[ready@[t] as int],
                    forall|a: int, b: int| 0 <= a < b < ready@.len() ==> ready@[a] < ready@[b],
                    forall|t: int| 0 <= t < ready@.len() ==> ready_count@[#[trigger] ready@[t] as int] == 0,
                    forall|x: int|
                        0 <= x < j && !done@[x] && ready_count@[x] == 0 ==> #[trigger] ready@.contains(x as usize),
                decreases n - j,
            {
                let ghost rv = ready@;
                if !done[j] && ready_count[j] == 0 {
                    ready.push(j);
                    proof {
                        assert(ready@[rv.len() as int] == j);
                    }
                }
                proof {
                    assert forall|x: int|
                        0 <= x < j + 1 && !done@[x] && ready_count@[x] == 0 implies #[trigger] ready@.contains(
                        x as usize,
                    ) by {
                        if x < j {
                            assert(rv.contains(x as usize));
                            let t = choose|t: int| 0 <= t < rv.len() && rv[t] == x as usize;
                            assert(ready@[t] == rv[t]);
                        }
                    }
                }
                j = j + 1;
            }
            if ready.len() == 0 {
                proof {
                    if cond0 && topology.in_dependency_order(sv, dd) && remaining > 0 {
                        let x = lemma_first_false(done@);
                        assert(count_between(topology.deps_of(sv[x]), dd, done_keys(sv, done@)) == 0) by {
                            if count_between(topology.deps_of(sv[x]), dd, done_keys(sv, done@)) > 0 {
                                let d = lemma_count_between_witness(
                                    topology.deps_of(sv[x]),
                                    dd,
                                    done_keys(sv, done@),
                                );
                                let y = choose|y: int| 0 <= y < x && sv[y] == d;
                                assert(done@[y]);
                                assert(done_keys(sv, done@).contains(d));
                            }
                        }
                        assert(ready@.contains(x as usize));
                    }
                }
                break;
            }
            let ghost dk0 = done_keys(sv, done@);
            proof {
                if cond0 {
                    assert forall|t: int| 0 <= t < ready@.len() implies count_between(
                        #[trigger] topology.deps_of(sv[ready@[t] as int]),
                        dd,
                        dk0,
                    ) == 0 by {
                        assert(ready_count@[ready@[t] as int] == 0);
                    }
                }
            }
            let ghost before = value_store.view();
            let ghost wave: Seq<int> = ready@.map_values(|x: usize| x as int);
            let ghost wn = wave_nodes(sv, wave);
            // Run the wave on the store as it is.
            let mut results: Vec<Option<V>> = Vec::new();
            let mut wave_calls: Ghost<Seq<(NodeKey, Seq<Option<V>>)>> = Ghost(Seq::empty());
            let mut wave_computed: Ghost<Seq<NodeKey>> = Ghost(Seq::empty());
            let mut t: usize = 0;
            while t < ready.len()
                invariant
                    wn == wave_nodes(sv, wave),
                    wave == ready@.map_values(|x: usize| x as int),
                    wave_calls@ == sink_calls_on(nodes, wn.take(t as int), before),
                    wave_computed@ == computes_of(nodes, wn.take(t as int)),
                    entries.wf(),
                    value_store.wf(),
                    value_store.view() == before,
                    nodes == entries.view(),
                    sv == ids_view(sorted@),
                    t <= ready@.len(),
                    results@.len() == t,
                    forall|x: int| 0 <= x < ready@.len() ==> (#[trigger] ready@[x]) < sorted@.len(),
                    forall|x: int| 0 <= x < t ==> #[trigger] single_output(nodes, sv[ready@[x] as int], before, results@[x]),
                decreases ready@.len() - t,
            {
                let (r, called, invoked) = Self::execute_single(entries, value_store, &sorted[ready[t]]);
                proof {
                    assert(wn[t as int] == sorted@[ready@[t as int] as int]@);
                    assert(wn.take(t + 1) =~= wn.take(t as int).push(wn[t as int]));
                    lemma_sink_calls_on_push(nodes, wn.take(t as int), wn[t as int], before);
                    lemma_computes_of_push(nodes, wn.take(t as int), wn[t as int]);
                    wave_calls@ = wave_calls@ + called@;
                    wave_computed@ = wave_computed@ + invoked@;
                }
                results.push(r);
                t = t + 1;
            }
            let ghost outs = results@;
            assert(wn.len() == ready@.len());
            assert(wn.take(ready@.len() as int) =~= wn);
            // Write the results, count down the dependents, mark the wave done.
            let ghost d0 = done@;
            let ghost r_before = remaining;
            let mut t: usize = 0;
            let mut rest = results;
            while t < ready.len()
                invariant
                    value_store.wf(),
                    topology.wf(),
                    n == sorted@.len(),
                    sv == ids_view(sorted@),
                    t <= ready@.len(),
                    ready_count@.len() == n,
                    done@.len() == n,
                    d0.len() == n,
                    remaining == count_false(done@),
                    remaining + t == r_before,
                    forall|x: int| 0 <= x < ready@.len() ==> (#[trigger] ready@[x]) < n,
                    forall|x: int| 0 <= x < ready@.len() ==> !d0[#[trigger] ready@[x] as int],
                    forall|a: int, b: int| 0 <= a < b < ready@.len() ==> ready@[a] < ready@[b],
                    forall|p: int| 0 <= p < n ==> #[trigger] done@[p] == (d0[p] || wave.take(t as int).contains(p)),
                    rest@ == outs.skip(t as int),
                    outs.len() == ready@.len(),
                    wn == wave_nodes(sv, wave),
                    wave == ready@.map_values(|x: usize| x as int),
                    value_store.view() == write_outputs(before, wn.take(t as int), outs.take(t as int)),
                    dd == dirty@,
                    cond0 == ordered_input(topology, sv, dd),
                    cond0 ==> forall|x: int|
                        0 <= x < n && !done@[x] ==> ready_count@[x] == count_between(
                            #[trigger] topology.deps_of(sv[x]),
                            dd,
                            done_keys(sv, done@),
                        ),
                decreases ready@.len() - t,
            {
                let p = ready[t];
                let ghost r0 = rest@;
                let r = rest.remove(0);
                proof {
                    assert(r0[0] == outs.skip(t as int)[0]);
                    assert(rest@ =~= outs.skip(t + 1));
                    assert(wn.take(t + 1).drop_last() =~= wn.take(t as int));
                    assert(outs.take(t + 1).drop_last() =~= outs.take(t as int));
                    assert(wn[t as int] == sv[p as int]);
                    assert(sv[p as int] == sorted@[p as int]@);
                }
                match r {
                    Some(v) => {
                        value_store.set_by_id(&sorted[p], v);
                    },
                    None => {},
                }
                proof {
                    assert(!wave.take(t as int).contains(p as int)) by {
                        if wave.take(t as int).contains(p as int) {
                            let a = choose|a: int| 0 <= a < t && wave.take(t as int)[a] == p as int;
                            assert(ready@[a] < ready@[t as int]);
                        }
                    }
                    assert(!done@[p as int]);
                    lemma_count_false_update(done@, p as int);
                    assert(wave.take(t + 1) =~= wave.take(t as int).push(p as int));
                }
                let ghost dkt = done_keys(sv, done@);
                proof {
                    if cond0 {
                        assert(!dkt.contains(sv[p as int])) by {
                            if dkt.contains(sv[p as int]) {
                                let y = choose|y: int| 0 <= y < done@.len() && done@[y] && #[trigger] sv[y] == sv[p as int];
                                assert(sv.no_duplicates());
                            }
                        }
                    }
                    assert(sv[p as int] == sorted@[p as int]@);
                }
                Self::count_down(topology, sorted, p, &mut ready_count, Ghost(dd), Ghost(dkt));
                let ghost dprev = done@;
                done.set(p, true);
                proof {
                    assert(done_keys(sv, done@) =~= dkt.insert(sv[p as int])) by {
                        assert forall|k: NodeKey| #[trigger] dkt.insert(sv[p as int]).contains(k) implies done_keys(
                            sv,
                            done@,
                        ).contains(k) by {
                            if k == sv[p as int] {
                                assert(done@[p as int]);
                            } else {
                                let y = choose|y: int| 0 <= y < dprev.len() && dprev[y] && #[trigger] sv[y] == k;
                                assert(done@[y]);
                            }
                        }
                        assert forall|k: NodeKey| #[trigger] done_keys(sv, done@).contains(k) implies dkt.insert(
                            sv[p as int],
                        ).contains(k) by {
                            let y = choose|y: int| 0 <= y < done@.len() && done@[y] && #[trigger] sv[y] == k;
                            if y != p as int {
                                assert(dprev[y]);
                            }
                        }
                    }
                    if cond0 {
                        assert forall|x: int| 0 <= x < n && !done@[x] implies ready_count@[x] == count_between(
                            #[trigger] topology.deps_of(sv[x]),
                            dd,
                            done_keys(sv, done@),
                        ) by {
                            assert(x != p as int);
                            assert(!dprev[x]);
                        }
                    }
                    assert forall|x: int| 0 <= x < n implies #[trigger] done@[x] == (d0[x] || wave.take(t + 1).contains(x)) by {
                        if x != p as int {
                            assert(done@[x] == dprev[x]);
                            assert(wave.take(t + 1).contains(x) == wave.take(t as int).contains(x)) by {
                                if wave.take(t + 1).contains(x) {
                                    let a = choose|a: int| 0 <= a < t + 1 && #[trigger] wave.take(t + 1)[a] == x;
                                    assert(a < t);
                                    assert(wave.take(t as int)[a] == x);
                                }
                                if wave.take(t as int).contains(x) {
                                    let a = choose|a: int| 0 <= a < t && #[trigger] wave.take(t as int)[a] == x;
                                    assert(wave.take(t + 1)[a] == x);
                                }
                            }
                        } else {
                            assert(wave.take(t + 1)[t as int] == x);
                        }
                    }
                }
                remaining = remaining - 1;
                t = t + 1;
            }
            proof {
                assert(wn.take(ready@.len() as int) =~= wn);
                assert(outs.take(ready@.len() as int) =~= outs);
                assert(wave.take(ready@.len() as int) =~= wave);
                let after = value_store.view();
                assert(wave_step(nodes, wn, before, after)) by {
                    assert forall|i: int| 0 <= i < wn.len() implies #[trigger] single_output(nodes, wn[i], before, outs[i]) by {
                        assert(wn[i] == sv[ready@[i] as int]);
                    }
                }
                let w2 = waves.push(wave);
                let t2 = trace.push(after);
                waves.lemma_flatten_push(wave);
                assert(w2.flatten() == waves.flatten() + wave);
                assert forall|w: int| 0 <= w < w2.len() implies #[trigger] wave_step(nodes, wave_nodes(sv, w2[w]), t2[w], t2[w + 1]) by {
                    if w < waves.len() {
                        assert(w2[w] == waves[w]);
                        assert(wave_step(nodes, wave_nodes(sv, waves[w]), trace[w], trace[w + 1]));
                    } else {
                        assert(w2[w] == wave);
                    }
                }
                assert forall|w: int, i: int| 0 <= w < w2.len() && 0 <= i < w2[w].len() implies 0 <= #[trigger] w2[w][i] < sv.len() by {
                    if w < waves.len() {
                        assert(w2[w] == waves[w]);
                    } else {
                        assert(w2[w][i] == ready@[i] as int);
                    }
                }
                assert(wave.no_duplicates()) by {
                    assert forall|a: int, b: int| 0 <= a < b < wave.len() implies wave[a] != wave[b] by {
                        assert(ready@[a] < ready@[b]);
                    }
                }
                assert forall|a: int, b: int| 0 <= a < b < w2.flatten().len() implies w2.flatten()[a] != w2.flatten()[b] by {
                    let f = waves.flatten();
                    if b < f.len() {
                        assert(f[a] != f[b]);
                    } else if a < f.len() {
                        assert(f.contains(f[a]));
                        assert(w2.flatten()[b] == wave[b - f.len()]);
                        let x = wave[b - f.len()];
                        assert(!d0[x]);
                        assert(!f.contains(x));
                    } else {
                        assert(wave[a - f.len()] != wave[b - f.len()]);
                    }
                }
                assert forall|p: int| 0 <= p < n && !done@[p] implies !w2.flatten().contains(p) by {
                    if w2.flatten().contains(p) {
                        let a = choose|a: int| 0 <= a < w2.flatten().len() && w2.flatten()[a] == p;
                        let f = waves.flatten();
                        if a < f.len() {
                            assert(f.contains(p));
                        } else {
                            assert(wave.contains(p));
                        }
                    }
                }
                assert forall|p: int| #![trigger w2.flatten().contains(p)] w2.flatten().contains(p) implies 0 <= p < n && done@[p] by {
                    let a = choose|a: int| 0 <= a < w2.flatten().len() && w2.flatten()[a] == p;
                    let f = waves.flatten();
                    if a < f.len() {
                        assert(f.contains(p));
                    } else {
                        assert(wave[a - f.len()] == p);
                        assert(wave.contains(p));
                    }
                }
                assert(dk0 == done_keys(sv, d0));
                if cond0 {
                    assert forall|w: int, i: int, d: NodeKey|
                        0 <= w < w2.len() && 0 <= i < w2[w].len() && dd.contains(d) && #[trigger] topology.deps_of(
                            sv[w2[w][i]],
                        ).contains(d) implies exists|wa: int, ia: int|
                        0 <= wa < w && 0 <= ia < w2[wa].len() && #[trigger] sv[w2[wa][ia]] == d by {
                        if w < waves.len() {
                            assert(w2[w] == waves[w]);
                            let (wa, ia) = choose|wa: int, ia: int|
                                0 <= wa < w && 0 <= ia < waves[wa].len() && #[trigger] sv[waves[wa][ia]] == d;
                            assert(w2[wa] == waves[wa]);
                        } else {
                            assert(w2[w] == wave);
                            assert(wave[i] == ready@[i] as int);
                            lemma_count_between_zero(topology.deps_of(sv[ready@[i] as int]), dd, dk0, d);
                            let y = choose|y: int| 0 <= y < d0.len() && d0[y] && #[trigger] sv[y] == d;
                            assert(runs_at(waves, y));
                            let (wa, ia) = choose|wa: int, ia: int|
                                0 <= wa < waves.len() && 0 <= ia < waves[wa].len() && #[trigger] waves[wa][ia] == y;
                            assert(w2[wa] == waves[wa]);
                            assert(sv[w2[wa][ia]] == d);
                        }
                    }
                }
                assert forall|p: int| 0 <= p < n && #[trigger] done@[p] implies runs_at(w2, p) by {
                    if d0[p] {
                        assert(runs_at(waves, p));
                        let (wa, ia) = choose|wa: int, ia: int|
                            0 <= wa < waves.len() && 0 <= ia < waves[wa].len() && #[trigger] waves[wa][ia] == p;
                        assert(w2[wa] == waves[wa]);
                    } else {
                        assert(wave.contains(p));
                        let ia = choose|ia: int| 0 <= ia < wave.len() && wave[ia] == p;
                        assert(w2[waves.len() as int] == wave);
                        assert(w2[waves.len() as int][ia] == p);
                    }
                }
                lemma_wave_sink_calls_prefix(nodes, sv, waves, trace, t2);
                assert(w2.drop_last() =~= waves);
                assert(t2[waves.len() as int] == before);
                calls@ = calls@ + wave_calls@;
                computed@ = computed@ + wave_computed@;
                waves = w2;
                trace = t2;
            }
        }
        proof {
            if cond0 && topology.in_dependency_order(sv, dd) {
                assert forall|p: int| 0 <= p < n implies #[trigger] runs_at(waves, p) by {
                    if !done@[p] {
                        lemma_count_false_pos(done@, p);
                    }
                }
            }
        }
        proof {
            if sv.no_duplicates() {
                lemma_wave_computes_unique(nodes, sv, waves);
            }
        }
        (calls, computed)
    }
}

} // verus!
