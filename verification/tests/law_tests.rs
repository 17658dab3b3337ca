use reactive_graph::async_compute::{AsyncAction, AsyncManager};
use reactive_graph::command::Command;
use reactive_graph::engine::Engine;
use reactive_graph::error::ErrorStrategy;
use reactive_graph::event_loop::process_batch;
use reactive_graph::graph::{AsyncPolicy, Graph};
use reactive_graph::node_ref::{NodeId, NodeRef};
use reactive_graph::sender::Sender;
use reactive_graph::subgraph::SubgraphBuilder;
use std::time::Duration;

fn starts_of(actions: &[AsyncAction<u32>]) -> Vec<u32> {
    actions
        .iter()
        .filter_map(|a| match a {
            AsyncAction::Start { work, .. } => Some(*work),
            AsyncAction::Abort { .. } => None,
        })
        .collect()
}

fn aborts_of(actions: &[AsyncAction<u32>]) -> usize {
    actions.iter().filter(|a| matches!(a, AsyncAction::Abort { .. })).count()
}

#[test]
fn group_never_runs_more_than_its_limit() {
    let mut m: AsyncManager<f64, u32> = AsyncManager::new();
    let g = m.create_group(2);
    for i in 0..5u32 {
        let id = NodeId::from_key::<_, ()>(format!("n{}", i).as_str());
        m.spawn(id, i, AsyncPolicy::LatestWins, Some(g.0));
        assert!(m.group_in_flight(g) <= 2);
    }
    let actions = m.take_actions();
    assert_eq!(starts_of(&actions), vec![0, 1]);
    assert_eq!(m.group_in_flight(g), 2);

    // One completion frees a slot: the oldest queued work starts.
    m.process_completion(&NodeId::from_key::<_, ()>("n0"));
    let actions = m.take_actions();
    assert_eq!(starts_of(&actions), vec![2]);
    assert_eq!(m.group_in_flight(g), 2);
}

#[test]
fn latest_wins_cancels_the_running_task() {
    let mut m: AsyncManager<f64, u32> = AsyncManager::new();
    let id = NodeId::from_key::<_, ()>("lw");
    m.spawn(id.clone(), 1, AsyncPolicy::LatestWins, None);
    m.spawn(id.clone(), 2, AsyncPolicy::LatestWins, None);
    let actions = m.take_actions();
    assert_eq!(starts_of(&actions), vec![1, 2]);
    assert_eq!(aborts_of(&actions), 1);
    assert!(m.take_actions().is_empty());
}

#[test]
fn queue_runs_pending_work_after_completion() {
    let mut m: AsyncManager<f64, u32> = AsyncManager::new();
    let id = NodeId::from_key::<_, ()>("q");
    m.spawn(id.clone(), 1, AsyncPolicy::Queue, None);
    m.spawn(id.clone(), 2, AsyncPolicy::Queue, None);
    m.spawn(id.clone(), 3, AsyncPolicy::Queue, None);
    assert_eq!(starts_of(&m.take_actions()), vec![1]);
    m.process_completion(&id);
    assert_eq!(starts_of(&m.take_actions()), vec![2]);
    m.process_completion(&id);
    assert_eq!(starts_of(&m.take_actions()), vec![3]);
    m.process_completion(&id);
    assert!(m.take_actions().is_empty());
}

#[test]
fn debounce_starts_after_its_delay() {
    let mut m: AsyncManager<f64, u32> = AsyncManager::new();
    let id = NodeId::from_key::<_, ()>("db");
    let d = Duration::from_millis(50);
    m.spawn(id.clone(), 7, AsyncPolicy::Debounce(d), None);
    let actions = m.take_actions();
    assert_eq!(actions.len(), 1);
    match &actions[0] {
        AsyncAction::Start { work, delay, .. } => {
            assert_eq!(*work, 7);
            assert_eq!(*delay, Some(d));
        }
        AsyncAction::Abort { .. } => panic!("expected a start"),
    }
}

#[test]
fn zero_limit_group_runs_nothing() {
    let mut m: AsyncManager<f64, u32> = AsyncManager::new();
    let g = m.create_group(0);
    m.spawn(NodeId::from_key::<_, ()>("z"), 1, AsyncPolicy::LatestWins, Some(g.0));
    assert!(starts_of(&m.take_actions()).is_empty());
    assert_eq!(m.group_in_flight(g), 0);
}

#[test]
fn propagate_error_removes_the_value_when_an_input_is_missing() {
    let mut engine: Engine<f64> = Engine::new();
    let g = engine.graph();
    let s1: NodeRef<f64> = Graph::source("pe.s1").on_activate(|_tx: Sender<f64>| ()).build(g);
    let s2: NodeRef<f64> = Graph::source("pe.s2").on_activate(|_tx: Sender<f64>| ()).build(g);
    let sum: NodeRef<f64> = Graph::compute("pe.sum").dep(s1.clone()).dep(s2.clone()).compute(|a: &f64, b: &f64| a + b).build(g);
    let sink: NodeRef<()> = Graph::sink("pe.sink").dep(sum.clone()).on_emit(|_: &f64| {}).build(g);
    engine.activate_sink(&sink.id);
    engine.graph.value_store.set(&sum, 99.0);
    engine.set_error_strategy(&sum.id, ErrorStrategy::PropagateError);
    // Only one input has a value: the compute gives nothing.
    engine.run_cycle_with(vec![(s1.id.clone(), 1.0)], false);
    assert_eq!(engine.graph.value_store.get(&sum), None);

    // Under the default strategy the stale value would have stayed.
    engine.graph.value_store.set(&sum, 99.0);
    engine.set_error_strategy(&sum.id, ErrorStrategy::PropagateStale);
    engine.run_cycle_with(vec![(s1.id.clone(), 2.0)], false);
    assert_eq!(engine.graph.value_store.get(&sum), Some(&99.0));
}

#[test]
fn a_cycle_leaves_nodes_outside_the_dirty_set_alone() {
    let mut engine: Engine<f64> = Engine::new();
    let g = engine.graph();
    let a: NodeRef<f64> = Graph::source("fr.a").on_activate(|_tx: Sender<f64>| ()).build(g);
    let b: NodeRef<f64> = Graph::source("fr.b").on_activate(|_tx: Sender<f64>| ()).build(g);
    let ca: NodeRef<f64> = Graph::compute("fr.ca").dep(a.clone()).compute(|v: &f64| v + 1.0).build(g);
    let cb: NodeRef<f64> = Graph::compute("fr.cb").dep(b.clone()).compute(|v: &f64| v + 1.0).build(g);
    let s1: NodeRef<()> = Graph::sink("fr.s1").dep(ca.clone()).on_emit(|_: &f64| {}).build(g);
    let s2: NodeRef<()> = Graph::sink("fr.s2").dep(cb.clone()).on_emit(|_: &f64| {}).build(g);
    engine.activate_sink(&s1.id);
    engine.activate_sink(&s2.id);
    engine.run_cycle_with(vec![(a.id.clone(), 1.0), (b.id.clone(), 10.0)], false);
    assert_eq!(engine.graph.value_store.get(&cb), Some(&11.0));
    engine.run_cycle_with(vec![(a.id.clone(), 5.0)], true);
    assert_eq!(engine.graph.value_store.get(&ca), Some(&6.0));
    assert_eq!(engine.graph.value_store.get(&cb), Some(&11.0));
    assert_eq!(engine.metrics().total_cycles, 2);
    // Without updates nothing happens, not even a recorded cycle.
    engine.run_cycle_with(Vec::new(), false);
    assert_eq!(engine.metrics().total_cycles, 2);
}

#[test]
fn later_updates_of_one_source_win_within_a_batch() {
    let mut engine: Engine<f64> = Engine::new();
    let g = engine.graph();
    let a: NodeRef<f64> = Graph::source("lw.a").on_activate(|_tx: Sender<f64>| ()).build(g);
    let c: NodeRef<f64> = Graph::compute("lw.c").dep(a.clone()).compute(|v: &f64| v * 10.0).build(g);
    let s: NodeRef<()> = Graph::sink("lw.s").dep(c.clone()).on_emit(|_: &f64| {}).build(g);
    engine.activate_sink(&s.id);
    engine.run_cycle_with(vec![(a.id.clone(), 1.0), (a.id.clone(), 2.0)], false);
    assert_eq!(engine.graph.value_store.get(&c), Some(&20.0));
}

#[test]
fn deactivation_counts_references_down_first() {
    let mut engine: Engine<f64> = Engine::new();
    let g = engine.graph();
    let src: NodeRef<f64> = Graph::source("rc.src").on_activate(|_tx: Sender<f64>| ()).build(g);
    let src2: NodeRef<f64> = Graph::source("rc.src").on_activate(|_tx: Sender<f64>| ()).build(g);
    assert_eq!(src.id, src2.id);
    let sink: NodeRef<()> = Graph::sink("rc.sink").dep(src.clone()).on_emit(|_: &f64| {}).build(g);
    engine.activate_sink(&sink.id);
    assert_eq!(engine.graph.get_entry(&src.id).unwrap().ref_count, 2);
    engine.deactivate_node(&sink.id);
    // The sink is gone; the source was registered twice and stays with one reference.
    assert!(engine.graph.get_entry(&sink.id).is_none());
    assert_eq!(engine.graph.get_entry(&src.id).unwrap().ref_count, 1);
    assert!(engine.active.contains(&src.id));
    engine.deactivate_node(&src.id);
    assert!(engine.graph.get_entry(&src.id).is_none());
    assert!(!engine.active.contains(&src.id));
}

#[test]
fn activation_initially_computes_when_inputs_are_there() {
    let mut engine: Engine<f64> = Engine::new();
    let g = engine.graph();
    let src: NodeRef<f64> = Graph::source("ai.src").on_activate(|_tx: Sender<f64>| ()).build(g);
    let c: NodeRef<f64> = Graph::compute("ai.c").dep(src.clone()).compute(|v: &f64| v + 0.5).build(g);
    let s: NodeRef<()> = Graph::sink("ai.s").dep(c.clone()).on_emit(|_: &f64| {}).build(g);
    engine.graph.value_store.set(&src, 2.0);
    engine.activate_sink(&s.id);
    assert_eq!(engine.graph.value_store.get(&c), Some(&2.5));
}

#[test]
fn sources_push_through_their_sender() {
    let mut engine: Engine<f64> = Engine::new();
    let held: std::sync::Arc<std::sync::Mutex<Option<Sender<f64>>>> = std::sync::Arc::new(std::sync::Mutex::new(None));
    let h = held.clone();
    let g = engine.graph();
    let src: NodeRef<f64> = Graph::source("sp.src")
        .on_activate(move |tx: Sender<f64>| {
            *h.lock().unwrap() = Some(tx);
        })
        .build(g);
    let c: NodeRef<f64> = Graph::compute("sp.c").dep(src.clone()).compute(|v: &f64| v * 4.0).build(g);
    let s: NodeRef<()> = Graph::sink("sp.s").dep(c.clone()).on_emit(|_: &f64| {}).build(g);
    engine.activate_sink(&s.id);
    let tx = held.lock().unwrap().clone().unwrap();
    tx.send(3.0);
    engine.run_cycle();
    assert_eq!(engine.graph.value_store.get(&c), Some(&12.0));
}

#[test]
fn a_batch_stops_exactly_on_shutdown() {
    let mut engine: Engine<f64> = Engine::new();
    let mut sb = SubgraphBuilder::new();
    let src: NodeRef<f64> = SubgraphBuilder::source("b.src").on_activate(|_tx: Sender<f64>| ()).build_sub(&mut sb);
    let c: NodeRef<f64> = SubgraphBuilder::compute("b.c").dep(src.clone()).compute(|v: &f64| v - 1.0).build_sub(&mut sb);
    SubgraphBuilder::sink("b.s").dep(c.clone()).on_emit(|_: &f64| {}).build_sub(&mut sb);
    let (reply_tx, reply_rx) = std::sync::mpsc::channel();
    let stop = process_batch(
        &mut engine,
        vec![
            Command::Merge { subgraph: sb.build(), reply: reply_tx },
            Command::SourceUpdate { id: src.id.clone(), value: 8.0 },
        ],
    );
    assert!(!stop);
    assert_eq!(reply_rx.recv().unwrap().len(), 3);
    assert_eq!(engine.graph.value_store.get(&c), Some(&7.0));
    let stop = process_batch(&mut engine, vec![Command::AsyncComplete, Command::Shutdown]);
    assert!(stop);
}

#[test]
fn parallel_waves_run_dependencies_first() {
    let mut engine: Engine<f64> = Engine::new();
    let g = engine.graph();
    let a: NodeRef<f64> = Graph::source("pw.a").on_activate(|_tx: Sender<f64>| ()).build(g);
    let b: NodeRef<f64> = Graph::compute("pw.b").dep(a.clone()).compute(|v: &f64| v * 2.0).build(g);
    let c: NodeRef<f64> = Graph::compute("pw.c").dep(a.clone()).dep(b.clone()).compute(|x: &f64, y: &f64| x + y).build(g);
    let s: NodeRef<()> = Graph::sink("pw.s").dep(c.clone()).on_emit(|_: &f64| {}).build(g);
    engine.activate_sink(&s.id);
    engine.run_cycle_with(vec![(a.id.clone(), 3.0)], true);
    assert_eq!(engine.graph.value_store.get(&b), Some(&6.0));
    // `c` runs in a later wave than `b` and sees its new value.
    assert_eq!(engine.graph.value_store.get(&c), Some(&9.0));
    engine.run_cycle_with(vec![(a.id.clone(), 5.0)], true);
    assert_eq!(engine.graph.value_store.get(&c), Some(&15.0));
}

#[test]
fn activation_fills_a_chain_from_its_inputs_up() {
    let mut engine: Engine<f64> = Engine::new();
    let g = engine.graph();
    let src: NodeRef<f64> = Graph::source("ac.src").on_activate(|_tx: Sender<f64>| ()).build(g);
    let c1: NodeRef<f64> = Graph::compute("ac.c1").dep(src.clone()).compute(|v: &f64| v + 1.0).build(g);
    let c2: NodeRef<f64> = Graph::compute("ac.c2").dep(c1.clone()).compute(|v: &f64| v * 10.0).build(g);
    let missing: NodeRef<f64> = Graph::source("ac.none").on_activate(|_tx: Sender<f64>| ()).build(g);
    let c3: NodeRef<f64> = Graph::compute("ac.c3").dep(c2.clone()).dep(missing.clone()).compute(|x: &f64, y: &f64| x + y).build(g);
    let s: NodeRef<()> = Graph::sink("ac.s").dep(c3.clone()).on_emit(|_: &f64| {}).build(g);
    engine.graph.value_store.set(&src, 1.0);
    engine.activate_sink(&s.id);
    assert_eq!(engine.graph.value_store.get(&c1), Some(&2.0));
    assert_eq!(engine.graph.value_store.get(&c2), Some(&20.0));
    // One input of `c3` has no value yet: it gets none.
    assert_eq!(engine.graph.value_store.get(&c3), None);
}

#[test]
fn releasing_a_merged_subgraph_takes_its_new_nodes_out() {
    let mut engine: Engine<f64> = Engine::new();
    let g = engine.graph();
    let other: NodeRef<f64> = Graph::source("ru.other").on_activate(|_tx: Sender<f64>| ()).build(g);
    let other_sink: NodeRef<()> = Graph::sink("ru.other_sink").dep(other.clone()).on_emit(|_: &f64| {}).build(g);
    engine.activate_sink(&other_sink.id);
    let mut sb = SubgraphBuilder::new();
    let src: NodeRef<f64> = SubgraphBuilder::source("ru.src").on_activate(|_tx: Sender<f64>| ()).build_sub(&mut sb);
    let c: NodeRef<f64> = SubgraphBuilder::compute("ru.c").dep(src.clone()).compute(|v: &f64| v + 1.0).build_sub(&mut sb);
    let s: NodeRef<()> = SubgraphBuilder::sink("ru.s").dep(c.clone()).on_emit(|_: &f64| {}).build_sub(&mut sb);
    let handle = engine.merge(sb.build());
    for id in [&src.id, &c.id, &s.id] {
        assert_eq!(engine.graph.get_entry(id).unwrap().ref_count, 1);
        assert!(engine.active.contains(id));
    }
    handle.release(&mut engine);
    // Nothing happens before the next cycle.
    assert!(engine.graph.get_entry(&c.id).is_some());
    engine.run_cycle();
    for id in [&src.id, &c.id, &s.id] {
        assert!(engine.graph.get_entry(id).is_none());
        assert!(!engine.active.contains(id));
    }
    // Nodes that the subgraph neither holds nor depends on stay.
    assert!(engine.graph.get_entry(&other.id).is_some());
    assert!(engine.active.contains(&other_sink.id));
}

#[test]
fn a_batch_without_updates_runs_no_cycle() {
    let mut engine: Engine<f64> = Engine::new();
    let g = engine.graph();
    let a: NodeRef<f64> = Graph::source("nb.a").on_activate(|_tx: Sender<f64>| ()).build(g);
    let c: NodeRef<f64> = Graph::compute("nb.c").dep(a.clone()).compute(|v: &f64| v + 1.0).build(g);
    let s: NodeRef<()> = Graph::sink("nb.s").dep(c.clone()).on_emit(|_: &f64| {}).build(g);
    engine.activate_sink(&s.id);
    let stop = process_batch(&mut engine, vec![Command::Remove { node_ids: vec![s.id.clone()] }, Command::SourceReady]);
    assert!(!stop);
    assert_eq!(engine.metrics().total_cycles, 0);
    assert!(engine.graph.get_entry(&s.id).is_none());
    // An update does bring a cycle.
    let stop = process_batch(&mut engine, vec![Command::SourceUpdate { id: a.id.clone(), value: 1.0 }]);
    assert!(!stop);
    assert_eq!(engine.metrics().total_cycles, 1);
}

#[test]
fn a_shared_node_stays_while_another_subgraph_uses_it() {
    let mut engine: Engine<f64> = Engine::new();
    let mut sb1 = SubgraphBuilder::new();
    let s1: NodeRef<f64> = SubgraphBuilder::source("sh.s").on_activate(|_tx: Sender<f64>| ()).build_sub(&mut sb1);
    let k1: NodeRef<()> = SubgraphBuilder::sink("sh.k1").dep(s1.clone()).on_emit(|_: &f64| {}).build_sub(&mut sb1);
    let mut sb2 = SubgraphBuilder::new();
    let s2: NodeRef<f64> = SubgraphBuilder::source("sh.s").on_activate(|_tx: Sender<f64>| ()).build_sub(&mut sb2);
    let k2: NodeRef<()> = SubgraphBuilder::sink("sh.k2").dep(s2.clone()).on_emit(|_: &f64| {}).build_sub(&mut sb2);
    assert_eq!(s1.id, s2.id);
    let h1 = engine.merge(sb1.build());
    let _h2 = engine.merge(sb2.build());
    assert_eq!(engine.graph.get_entry(&s1.id).unwrap().ref_count, 2);
    h1.release(&mut engine);
    engine.run_cycle();
    assert!(engine.graph.get_entry(&k1.id).is_none());
    assert!(!engine.active.contains(&k1.id));
    assert_eq!(engine.graph.get_entry(&s1.id).unwrap().ref_count, 1);
    assert!(engine.active.contains(&s1.id));
    assert!(engine.active.contains(&k2.id));
}

#[test]
fn setting_an_error_strategy_first_takes_released_nodes_out() {
    let mut engine: Engine<f64> = Engine::new();
    let g = engine.graph();
    let keep: NodeRef<f64> = Graph::source("es.keep").on_activate(|_tx: Sender<f64>| ()).build(g);
    let mut sb = SubgraphBuilder::new();
    let src: NodeRef<f64> = SubgraphBuilder::source("es.src").on_activate(|_tx: Sender<f64>| ()).build_sub(&mut sb);
    let s: NodeRef<()> = SubgraphBuilder::sink("es.s").dep(src.clone()).on_emit(|_: &f64| {}).build_sub(&mut sb);
    let handle = engine.merge(sb.build());
    handle.release(&mut engine);
    assert!(engine.graph.get_entry(&s.id).is_some());
    engine.set_error_strategy(&keep.id, ErrorStrategy::PropagateError);
    assert!(engine.graph.get_entry(&s.id).is_none());
    assert!(engine.graph.get_entry(&src.id).is_none());
    assert!(!engine.active.contains(&src.id));
    assert!(engine.pending_removals.is_empty());
    assert!(matches!(engine.error_strategies.get(&keep.id), Some(ErrorStrategy::PropagateError)));
}

#[test]
fn removing_a_sink_leaves_its_inputs_registered() {
    let mut engine: Engine<f64> = Engine::new();
    let g = engine.graph();
    let a: NodeRef<f64> = Graph::source("rm.a").on_activate(|_tx: Sender<f64>| ()).build(g);
    let c: NodeRef<f64> = Graph::compute("rm.c").dep(a.clone()).compute(|v: &f64| v + 1.0).build(g);
    let s: NodeRef<()> = Graph::sink("rm.s").dep(c.clone()).on_emit(|_: &f64| {}).build(g);
    engine.activate_sink(&s.id);
    let stop = process_batch(&mut engine, vec![Command::Remove { node_ids: vec![s.id.clone()] }]);
    assert!(!stop);
    assert!(engine.graph.get_entry(&s.id).is_none());
    assert!(engine.graph.get_entry(&c.id).is_some());
    assert!(engine.graph.get_entry(&a.id).is_some());
    assert!(engine.active.contains(&c.id));
}

#[test]
fn retry_waits_its_backoff_between_attempts() {
    let mut engine: Engine<f64> = Engine::new();
    let g = engine.graph();
    let a: NodeRef<f64> = Graph::source("rt.a").on_activate(|_tx: Sender<f64>| ()).build(g);
    let b: NodeRef<f64> = Graph::source("rt.b").on_activate(|_tx: Sender<f64>| ()).build(g);
    let c: NodeRef<f64> = Graph::compute("rt.c").dep(a.clone()).dep(b.clone()).compute(|x: &f64, y: &f64| x + y).build(g);
    let s: NodeRef<()> = Graph::sink("rt.s").dep(c.clone()).on_emit(|_: &f64| {}).build(g);
    engine.set_error_strategy(&c.id, ErrorStrategy::Retry { max_attempts: 3, backoff_ms: 40 });
    engine.activate_sink(&s.id);
    let tx = engine.graph.source_tx.clone();
    // `b` never gets a value: every attempt fails, with a wait before each retry.
    tx.send((a.id.clone(), 1.0)).unwrap();
    let start = std::time::Instant::now();
    engine.run_cycle();
    assert!(start.elapsed() >= Duration::from_millis(80));
    assert_eq!(engine.graph.value_store.get(&c), None);
}

#[test]
fn deactivation_takes_one_reference_off_a_shared_dependency() {
    let mut engine: Engine<f64> = Engine::new();
    let g = engine.graph();
    let s: NodeRef<f64> = Graph::source("cd.s").on_activate(|_tx: Sender<f64>| ()).build(g);
    let s_again: NodeRef<f64> = Graph::source("cd.s").on_activate(|_tx: Sender<f64>| ()).build(g);
    let c: NodeRef<f64> = Graph::compute("cd.c").dep(s.clone()).compute(|v: &f64| v + 1.0).build(g);
    let k: NodeRef<()> = Graph::sink("cd.k").dep(c.clone()).on_emit(|_: &f64| {}).build(g);
    assert_eq!(s.id, s_again.id);
    engine.activate_sink(&k.id);
    assert_eq!(engine.graph.get_entry(&s.id).unwrap().ref_count, 2);
    engine.deactivate_node(&k.id);
    assert!(engine.graph.get_entry(&k.id).is_none());
    assert!(engine.graph.get_entry(&c.id).is_none());
    // The source was registered twice: the cascade takes one reference off.
    assert_eq!(engine.graph.get_entry(&s.id).unwrap().ref_count, 1);
}

#[test]
fn a_remote_handle_releases_exactly_the_reported_nodes() {
    let (tx, rx) = std::sync::mpsc::channel::<Command<f64, ()>>();
    let a = NodeId::from_key::<_, ()>("rh.a");
    let b = NodeId::from_key::<_, ()>("rh.b");
    let h = reactive_graph::engine_handle::RemoteSubgraphHandle::from_reply(Some(vec![a.clone(), b.clone()]), tx.clone());
    h.release();
    match rx.try_recv() {
        Ok(Command::Remove { node_ids }) => assert_eq!(node_ids, vec![a, b]),
        _ => panic!("expected a removal"),
    }
    // Without a reply there is nothing to release.
    let h = reactive_graph::engine_handle::RemoteSubgraphHandle::<f64, ()>::from_reply(None, tx);
    h.release();
    assert!(rx.try_recv().is_err());
}

#[test]
fn a_source_sender_pushes_for_its_own_source() {
    let (tx, rx) = std::sync::mpsc::channel::<(NodeId, f64)>();
    let id = NodeId::from_key::<_, ()>("ss.s");
    let s: Sender<f64> = Sender::new(id.clone(), tx);
    s.send(4.5);
    assert_eq!(rx.try_recv().unwrap(), (id.clone(), 4.5));
    match Command::<f64, ()>::source_update(id.clone(), 2.0) {
        Command::SourceUpdate { id: got, value } => {
            assert_eq!(got, id);
            assert_eq!(value, 2.0);
        },
        _ => panic!("expected a source update"),
    }
}
