use reactive_graph::async_compute::AsyncAction;
use reactive_graph::engine::Engine;
use reactive_graph::error::ErrorStrategy;
use reactive_graph::graph::{Graph, NodeKind};
use reactive_graph::node_ref::NodeRef;
use reactive_graph::sender::Sender;
use reactive_graph::subgraph::SubgraphBuilder;
use std::sync::atomic::{AtomicBool, AtomicUsize, Ordering};
use std::sync::{Arc, Mutex};

#[test]
fn test_source_push_propagates_to_compute() {
    let mut engine: Engine<f64> = Engine::new();
    let g = engine.graph();

    let source: NodeRef<f64> = Graph::source("src").on_activate(|_tx: Sender<f64>| ()).build(g);

    let compute: NodeRef<f64> = Graph::compute("double").dep(source.clone()).compute(|v: &f64| v * 2.0).build(g);

    // Build a sink to trigger activation
    let sink_ref: NodeRef<()> = Graph::sink("sink").dep(compute.clone()).on_emit(|_v: &f64| {}).build(g);

    engine.activate_sink(&sink_ref.id);

    // Push a value via the source's sender
    let tx = engine.graph.source_tx.clone();
    tx.send((source.id.clone(), 10.0_f64)).unwrap();

    engine.run_cycle();

    assert_eq!(engine.graph.value_store.get(&source), Some(&10.0));
    assert_eq!(engine.graph.value_store.get(&compute), Some(&20.0));
}

#[test]
fn test_chain_propagation() {
    let mut engine: Engine<f64> = Engine::new();
    let g = engine.graph();

    let source: NodeRef<f64> = Graph::source("src").on_activate(|_tx: Sender<f64>| ()).build(g);
    let c1: NodeRef<f64> = Graph::compute("c1").dep(source.clone()).compute(|v: &f64| v + 1.0).build(g);
    let c2: NodeRef<f64> = Graph::compute("c2").dep(c1.clone()).compute(|v: &f64| v * 3.0).build(g);

    let sink_values = Arc::new(Mutex::new(Vec::new()));
    let sv = sink_values.clone();

    let sink_ref: NodeRef<()> = Graph::sink("sink")
        .dep(c2.clone())
        .on_emit(move |v: &f64| {
            sv.lock().unwrap().push(*v);
        })
        .build(g);

    engine.activate_sink(&sink_ref.id);

    let tx = engine.graph.source_tx.clone();
    tx.send((source.id.clone(), 5.0_f64)).unwrap();
    engine.run_cycle();

    // 5 + 1 = 6, 6 * 3 = 18
    assert_eq!(*sink_values.lock().unwrap(), vec![18.0]);
}

#[test]
fn test_diamond_dependency() {
    let mut engine: Engine<f64> = Engine::new();
    let g = engine.graph();

    let source: NodeRef<f64> = Graph::source("src").on_activate(|_tx: Sender<f64>| ()).build(g);
    let left: NodeRef<f64> = Graph::compute("left").dep(source.clone()).compute(|v: &f64| v + 10.0).build(g);
    let right: NodeRef<f64> = Graph::compute("right").dep(source.clone()).compute(|v: &f64| v * 2.0).build(g);

    let join_values = Arc::new(Mutex::new(Vec::new()));
    let jv = join_values.clone();

    let join: NodeRef<f64> = Graph::compute("join")
        .dep(left.clone())
        .dep(right.clone())
        .compute(|l: &f64, r: &f64| l + r)
        .build(g);

    let sink_ref: NodeRef<()> = Graph::sink("sink")
        .dep(join.clone())
        .on_emit(move |v: &f64| {
            jv.lock().unwrap().push(*v);
        })
        .build(g);

    engine.activate_sink(&sink_ref.id);

    let tx = engine.graph.source_tx.clone();
    tx.send((source.id.clone(), 5.0_f64)).unwrap();
    engine.run_cycle();

    // left: 5+10=15, right: 5*2=10, join: 15+10=25
    assert_eq!(*join_values.lock().unwrap(), vec![25.0]);
    // Verify join computed once (only one value in sink)
    assert_eq!(join_values.lock().unwrap().len(), 1);
}

#[test]
fn test_batching() {
    let mut engine: Engine<f64> = Engine::new();
    let g = engine.graph();

    let s1: NodeRef<f64> = Graph::source("s1").on_activate(|_tx: Sender<f64>| ()).build(g);
    let s2: NodeRef<f64> = Graph::source("s2").on_activate(|_tx: Sender<f64>| ()).build(g);

    let sum: NodeRef<f64> = Graph::compute("sum")
        .dep(s1.clone())
        .dep(s2.clone())
        .compute(|a: &f64, b: &f64| a + b)
        .build(g);

    let sink_values = Arc::new(Mutex::new(Vec::new()));
    let sv = sink_values.clone();

    let sink_ref: NodeRef<()> = Graph::sink("sink")
        .dep(sum.clone())
        .on_emit(move |v: &f64| {
            sv.lock().unwrap().push(*v);
        })
        .build(g);

    engine.activate_sink(&sink_ref.id);

    // Two source updates before run_cycle
    let tx = engine.graph.source_tx.clone();
    tx.send((s1.id.clone(), 3.0_f64)).unwrap();
    tx.send((s2.id.clone(), 7.0_f64)).unwrap();
    engine.run_cycle();

    // Single cycle, consistent snapshot: 3 + 7 = 10
    assert_eq!(*sink_values.lock().unwrap(), vec![10.0]);
}

#[test]
fn test_activation_cascade() {
    let mut engine: Engine<f64> = Engine::new();
    let activated = Arc::new(AtomicBool::new(false));
    let act = activated.clone();

    let g = engine.graph();
    let source: NodeRef<f64> = Graph::source("src")
        .on_activate(move |_tx: Sender<f64>| {
            act.store(true, Ordering::SeqCst);
        })
        .build(g);

    let compute: NodeRef<f64> = Graph::compute("c").dep(source.clone()).compute(|v: &f64| *v).build(g);

    let sink_ref: NodeRef<()> = Graph::sink("sink").dep(compute.clone()).on_emit(|_v: &f64| {}).build(g);

    assert!(!activated.load(Ordering::SeqCst));
    engine.activate_sink(&sink_ref.id);
    assert!(activated.load(Ordering::SeqCst));
}

struct DropGuard(Arc<AtomicBool>);

impl Drop for DropGuard {
    fn drop(&mut self) {
        self.0.store(true, Ordering::SeqCst);
    }
}

#[test]
fn test_deactivation_drops_guard() {
    let mut engine: Engine<f64> = Engine::new();
    let dropped = Arc::new(AtomicBool::new(false));
    let d = dropped.clone();

    let g = engine.graph();
    let source: NodeRef<f64> = Graph::source("src").on_activate(move |_tx: Sender<f64>| DropGuard(d.clone())).build(g);

    let sink_ref: NodeRef<()> = Graph::sink("sink").dep(source.clone()).on_emit(|_v: &f64| {}).build(g);

    engine.activate_sink(&sink_ref.id);
    assert!(!dropped.load(Ordering::SeqCst));

    // Deactivate sink → cascades to source → guard dropped
    engine.deactivate_node(&sink_ref.id);
    assert!(dropped.load(Ordering::SeqCst));
}

#[test]
fn test_subgraph_merge() {
    let mut engine: Engine<f64> = Engine::new();
    let mut sb = SubgraphBuilder::new();

    let source: NodeRef<f64> = SubgraphBuilder::source("sg.src").on_activate(|_tx: Sender<f64>| ()).build_sub(&mut sb);

    let compute: NodeRef<f64> = SubgraphBuilder::compute("sg.double")
        .dep(source.clone())
        .compute(|v: &f64| v * 2.0)
        .build_sub(&mut sb);

    let sink_values = Arc::new(Mutex::new(Vec::new()));
    let sv = sink_values.clone();
    SubgraphBuilder::sink("sg.sink")
        .dep(compute.clone())
        .on_emit(move |v: &f64| {
            sv.lock().unwrap().push(*v);
        })
        .build_sub(&mut sb);

    let subgraph = sb.build();
    let _handle = engine.merge(subgraph);

    // Nodes should be active
    assert!(engine.active.contains(&source.id));
    assert!(engine.active.contains(&compute.id));

    // Push and propagate
    let tx = engine.graph.source_tx.clone();
    tx.send((source.id.clone(), 5.0_f64)).unwrap();
    engine.run_cycle();

    assert_eq!(*sink_values.lock().unwrap(), vec![10.0]);
}

#[test]
fn test_subgraph_handle_drop() {
    let mut engine: Engine<f64> = Engine::new();
    let dropped = Arc::new(AtomicBool::new(false));
    let d = dropped.clone();

    let mut sb = SubgraphBuilder::new();
    let source: NodeRef<f64> = SubgraphBuilder::source("sg.src")
        .on_activate(move |_tx: Sender<f64>| DropGuard(d.clone()))
        .build_sub(&mut sb);

    SubgraphBuilder::sink("sg.sink").dep(source.clone()).on_emit(|_v: &f64| {}).build_sub(&mut sb);

    let subgraph = sb.build();
    let handle = engine.merge(subgraph);

    assert!(!dropped.load(Ordering::SeqCst));
    assert!(engine.active.contains(&source.id));

    // Release the handle → removal queued, carried out at the next engine call
    handle.release(&mut engine);
    engine.run_cycle();
    assert!(dropped.load(Ordering::SeqCst));
    assert!(!engine.active.contains(&source.id));
}

#[test]
fn test_partial_deactivation() {
    let mut engine: Engine<f64> = Engine::new();
    let source_dropped = Arc::new(AtomicBool::new(false));

    // Build the shared source directly in the engine
    let d = source_dropped.clone();
    let g = engine.graph();
    let shared_source: NodeRef<f64> = Graph::source("shared.src")
        .on_activate(move |_tx: Sender<f64>| DropGuard(d.clone()))
        .build(g);

    // Build two subgraphs that both reference the shared source
    // (by using the same key, they'll dedup)
    let mut sb1 = SubgraphBuilder::new();
    let src1: NodeRef<f64> = SubgraphBuilder::source::<f64>("shared.src").on_activate(|_tx: Sender<f64>| ()).build_sub(&mut sb1);
    SubgraphBuilder::sink("sink1").dep(src1).on_emit(|_v: &f64| {}).build_sub(&mut sb1);

    let mut sb2 = SubgraphBuilder::new();
    let src2: NodeRef<f64> = SubgraphBuilder::source::<f64>("shared.src").on_activate(|_tx: Sender<f64>| ()).build_sub(&mut sb2);
    SubgraphBuilder::sink("sink2").dep(src2).on_emit(|_v: &f64| {}).build_sub(&mut sb2);

    let handle1 = engine.merge(sb1.build());
    let handle2 = engine.merge(sb2.build());

    // Activate the shared source explicitly
    engine.activate_sink(&shared_source.id);

    // Release first handle → source should stay (still referenced by second subgraph and direct)
    handle1.release(&mut engine);
    assert!(!source_dropped.load(Ordering::SeqCst));

    // Release second handle → source still referenced by direct registration
    handle2.release(&mut engine);
}

#[test]
fn test_fx_pricing_example() {
    // Simplified FX pricing: source → mid_rate → client_spread → sink
    let mut engine: Engine<f64> = Engine::new();

    // Function to build a client pricing subgraph
    fn build_client_pricing(sb: &mut SubgraphBuilder<f64>, client: &str) -> (NodeRef<f64>, NodeRef<f64>, Arc<Mutex<Vec<f64>>>) {
        // Shared source (will dedup across clients)
        let bid: NodeRef<f64> = SubgraphBuilder::source("spot.bid").on_activate(|_tx: Sender<f64>| ()).build_sub(sb);
        let ask: NodeRef<f64> = SubgraphBuilder::source("spot.ask").on_activate(|_tx: Sender<f64>| ()).build_sub(sb);

        // Shared mid rate
        let mid: NodeRef<f64> = SubgraphBuilder::compute("mid_rate")
            .dep(bid.clone())
            .dep(ask.clone())
            .compute(|b: &f64, a: &f64| (b + a) / 2.0)
            .build_sub(sb);

        // Per-client spread
        let spread_key = format!("spread.{}", client);
        let spread: NodeRef<f64> = SubgraphBuilder::compute(&spread_key)
            .dep(mid.clone())
            .compute(|m: &f64| m * 1.01) // simple spread
            .build_sub(sb);

        let sink_values = Arc::new(Mutex::new(Vec::new()));
        let sv = sink_values.clone();
        let sink_key = format!("pub.{}", client);
        SubgraphBuilder::sink(&sink_key)
            .dep(spread.clone())
            .on_emit(move |v: &f64| {
                sv.lock().unwrap().push(*v);
            })
            .build_sub(sb);

        (bid, ask, sink_values)
    }

    let mut sb1 = SubgraphBuilder::new();
    let (bid1, ask1, client1_values) = build_client_pricing(&mut sb1, "client1");

    let mut sb2 = SubgraphBuilder::new();
    let (bid2, _ask2, client2_values) = build_client_pricing(&mut sb2, "client2");

    // bid1 and bid2 should have the same key → same NodeId
    assert_eq!(bid1.id, bid2.id);

    let _h1 = engine.merge(sb1.build());
    let _h2 = engine.merge(sb2.build());

    // Push values
    let tx = engine.graph.source_tx.clone();
    tx.send((bid1.id.clone(), 1.1000_f64)).unwrap();
    tx.send((ask1.id.clone(), 1.1002_f64)).unwrap();
    engine.run_cycle();

    // mid = (1.1 + 1.1002) / 2 = 1.1001
    // spread = 1.1001 * 1.01 = 1.111101
    let c1 = client1_values.lock().unwrap();
    assert!((c1[0] - 1.111101).abs() < 0.0001);
    let c2 = client2_values.lock().unwrap();
    assert!((c2[0] - 1.111101).abs() < 0.0001);
}

#[test]
fn test_ready_count_ordering() {
    let mut engine: Engine<f64> = Engine::new();
    let g = engine.graph();

    let source: NodeRef<f64> = Graph::source("rc.src").on_activate(|_tx: Sender<f64>| ()).build(g);
    let left: NodeRef<f64> = Graph::compute("rc.left").dep(source.clone()).compute(|v: &f64| v + 10.0).build(g);
    let right: NodeRef<f64> = Graph::compute("rc.right").dep(source.clone()).compute(|v: &f64| v * 2.0).build(g);

    let join_results = Arc::new(Mutex::new(Vec::new()));
    let jr = join_results.clone();

    let join: NodeRef<f64> = Graph::compute("rc.join")
        .dep(left.clone())
        .dep(right.clone())
        .compute(move |l: &f64, r: &f64| {
            jr.lock().unwrap().push((*l, *r));
            l + r
        })
        .build(g);

    let sink: NodeRef<()> = Graph::sink("rc.sink").dep(join.clone()).on_emit(|_: &f64| {}).build(g);

    engine.activate_sink(&sink.id);

    let tx = engine.graph.source_tx.clone();
    tx.send((source.id.clone(), 5.0_f64)).unwrap();
    engine.run_cycle_parallel();

    // join should see left=15, right=10 → 25
    let results = join_results.lock().unwrap();
    assert_eq!(results.len(), 1);
    assert_eq!(results[0], (15.0, 10.0));
    assert_eq!(engine.graph.value_store.get(&join), Some(&25.0));
}

#[test]
fn test_node_computed_once() {
    let mut engine: Engine<f64> = Engine::new();
    let compute_count = Arc::new(AtomicUsize::new(0));
    let cc = compute_count.clone();

    let g = engine.graph();

    let s1: NodeRef<f64> = Graph::source("nc.s1").on_activate(|_tx: Sender<f64>| ()).build(g);
    let s2: NodeRef<f64> = Graph::source("nc.s2").on_activate(|_tx: Sender<f64>| ()).build(g);

    let join: NodeRef<f64> = Graph::compute("nc.join")
        .dep(s1.clone())
        .dep(s2.clone())
        .compute(move |a: &f64, b: &f64| {
            cc.fetch_add(1, Ordering::SeqCst);
            a + b
        })
        .build(g);

    let sink: NodeRef<()> = Graph::sink("nc.sink").dep(join.clone()).on_emit(|_: &f64| {}).build(g);

    engine.activate_sink(&sink.id);

    let tx = engine.graph.source_tx.clone();
    tx.send((s1.id.clone(), 3.0_f64)).unwrap();
    tx.send((s2.id.clone(), 7.0_f64)).unwrap();
    engine.run_cycle_parallel();

    // Node with two dirty deps computed exactly once
    assert_eq!(compute_count.load(Ordering::SeqCst), 1);
    assert_eq!(engine.graph.value_store.get(&join), Some(&10.0));
}

#[test]
fn test_large_dag() {
    let mut engine: Engine<f64> = Engine::new();
    let g = engine.graph();

    // Create 100 independent source → compute → sink chains
    let mut sources = Vec::new();
    let mut sinks = Vec::new();

    for i in 0..100 {
        let src: NodeRef<f64> = Graph::source(&format!("ld.s{}", i)).on_activate(|_tx: Sender<f64>| ()).build(g);
        let comp: NodeRef<f64> = Graph::compute(&format!("ld.c{}", i)).dep(src.clone()).compute(|v: &f64| v * 2.0).build(g);
        let sink: NodeRef<()> = Graph::sink(&format!("ld.sink{}", i)).dep(comp.clone()).on_emit(|_: &f64| {}).build(g);
        sources.push(src);
        sinks.push(sink);
    }

    for sink in &sinks {
        engine.activate_sink(&sink.id);
    }

    let tx = engine.graph.source_tx.clone();
    for (i, src) in sources.iter().enumerate() {
        tx.send((src.id.clone(), i as f64)).unwrap();
    }

    engine.run_cycle_parallel();

    // Verify correctness
    for (i, src) in sources.iter().enumerate() {
        assert_eq!(engine.graph.value_store.get(src), Some(&(i as f64)));
    }
}

#[test]
fn test_propagate_stale() {
    let mut engine: Engine<f64> = Engine::new();
    let call_count = Arc::new(AtomicUsize::new(0));
    let cc = call_count.clone();

    let sink_values = Arc::new(Mutex::new(Vec::new()));
    let sv = sink_values.clone();

    let (source, compute, sink) = {
        let g = engine.graph();
        let source: NodeRef<f64> = Graph::source("stale.src").on_activate(|_tx: Sender<f64>| ()).build(g);
        let compute: NodeRef<f64> = Graph::compute("stale.compute")
            .dep(source.clone())
            .compute(move |v: &f64| {
                cc.fetch_add(1, Ordering::SeqCst);
                v * 2.0
            })
            .build(g);
        let sink: NodeRef<()> = Graph::sink("stale.sink")
            .dep(compute.clone())
            .on_emit(move |v: &f64| {
                sv.lock().unwrap().push(*v);
            })
            .build(g);
        (source, compute, sink)
    };

    engine.set_error_strategy(&compute.id, ErrorStrategy::PropagateStale);
    engine.activate_sink(&sink.id);

    let tx = engine.graph.source_tx.clone();
    tx.send((source.id.clone(), 5.0_f64)).unwrap();
    engine.run_cycle();

    assert_eq!(engine.graph.value_store.get(&compute), Some(&10.0));

    tx.send((source.id.clone(), 7.0_f64)).unwrap();
    engine.run_cycle();

    assert_eq!(engine.graph.value_store.get(&compute), Some(&14.0));
}

#[test]
fn test_propagate_error() {
    let mut engine: Engine<f64> = Engine::new();

    let (source, compute, sink) = {
        let g = engine.graph();
        let source: NodeRef<f64> = Graph::source("err.src").on_activate(|_tx: Sender<f64>| ()).build(g);
        let compute: NodeRef<f64> = Graph::compute("err.compute").dep(source.clone()).compute(|v: &f64| v * 2.0).build(g);
        let sink: NodeRef<()> = Graph::sink("err.sink").dep(compute.clone()).on_emit(|_: &f64| {}).build(g);
        (source, compute, sink)
    };

    engine.set_error_strategy(&compute.id, ErrorStrategy::PropagateError);
    engine.activate_sink(&sink.id);

    let tx = engine.graph.source_tx.clone();
    tx.send((source.id.clone(), 3.0_f64)).unwrap();
    engine.run_cycle();

    assert_eq!(engine.graph.value_store.get(&compute), Some(&6.0));
}

#[test]
fn test_retry() {
    let mut engine: Engine<f64> = Engine::new();
    let attempt_count = Arc::new(AtomicUsize::new(0));
    let ac = attempt_count.clone();

    let (source, compute, sink) = {
        let g = engine.graph();
        let source: NodeRef<f64> = Graph::source("retry.src").on_activate(|_tx: Sender<f64>| ()).build(g);
        let compute: NodeRef<f64> = Graph::compute("retry.compute")
            .dep(source.clone())
            .compute(move |v: &f64| {
                ac.fetch_add(1, Ordering::SeqCst);
                v * 2.0
            })
            .build(g);
        let sink: NodeRef<()> = Graph::sink("retry.sink").dep(compute.clone()).on_emit(|_: &f64| {}).build(g);
        (source, compute, sink)
    };

    engine.set_error_strategy(&compute.id, ErrorStrategy::Retry { max_attempts: 3, backoff_ms: 1 });
    engine.activate_sink(&sink.id);

    let tx = engine.graph.source_tx.clone();
    tx.send((source.id.clone(), 5.0_f64)).unwrap();
    engine.run_cycle();

    // Compute should have succeeded on first attempt (it always returns a value)
    assert_eq!(engine.graph.value_store.get(&compute), Some(&10.0));
    // First attempt succeeded, so only 1 call
    assert_eq!(attempt_count.load(Ordering::SeqCst), 1);
}

#[test]
fn test_metrics_cycle_duration() {
    let mut engine: Engine<f64> = Engine::new();
    let g = engine.graph();

    let source: NodeRef<f64> = Graph::source("met.src").on_activate(|_tx: Sender<f64>| ()).build(g);
    let compute: NodeRef<f64> = Graph::compute("met.compute").dep(source.clone()).compute(|v: &f64| v * 2.0).build(g);
    let sink: NodeRef<()> = Graph::sink("met.sink").dep(compute.clone()).on_emit(|_: &f64| {}).build(g);

    engine.activate_sink(&sink.id);

    // Before any cycle
    let m = engine.metrics();
    assert_eq!(m.total_cycles, 0);
    assert!(m.last_cycle.is_none());

    // Run a cycle
    let tx = engine.graph.source_tx.clone();
    tx.send((source.id.clone(), 5.0_f64)).unwrap();
    engine.run_cycle();

    let m = engine.metrics();
    assert_eq!(m.total_cycles, 1);
    assert!(m.last_cycle.is_some());

    let cycle = m.last_cycle.unwrap();
    assert_eq!(cycle.cycle_id, 1);
    assert!(cycle.duration.as_nanos() > 0);
    assert_eq!(cycle.nodes_computed, 2); // compute + sink

    // Verify active node counts
    assert_eq!(m.active_sources, 1);
    assert_eq!(m.active_computes, 1);
    assert_eq!(m.active_sinks, 1);

    // Run another cycle
    tx.send((source.id.clone(), 10.0_f64)).unwrap();
    engine.run_cycle();

    let m = engine.metrics();
    assert_eq!(m.total_cycles, 2);
    assert_eq!(m.last_cycle.unwrap().cycle_id, 2);
}

#[test]
fn test_introspection_snapshot() {
    let mut engine: Engine<f64> = Engine::new();
    let g = engine.graph();

    let source: NodeRef<f64> = Graph::source("snap.src").on_activate(|_tx: Sender<f64>| ()).build(g);
    let compute: NodeRef<f64> = Graph::compute("snap.compute").dep(source.clone()).compute(|v: &f64| v * 2.0).build(g);
    let sink: NodeRef<()> = Graph::sink("snap.sink").dep(compute.clone()).on_emit(|_: &f64| {}).build(g);

    engine.activate_sink(&sink.id);

    let snapshot = engine.snapshot();

    // Should have 3 nodes
    assert_eq!(snapshot.nodes.len(), 3);

    // Should have 2 edges: source→compute, compute→sink
    assert_eq!(snapshot.edges.len(), 2);

    // Verify node kinds
    let source_info = snapshot.nodes.iter().find(|n| n.id == source.id).unwrap();
    assert_eq!(source_info.kind, NodeKind::Source);
    assert_eq!(source_info.deps.len(), 0);

    let compute_info = snapshot.nodes.iter().find(|n| n.id == compute.id).unwrap();
    assert_eq!(compute_info.kind, NodeKind::Compute);
    assert_eq!(compute_info.deps.len(), 1);

    let sink_info = snapshot.nodes.iter().find(|n| n.id == sink.id).unwrap();
    assert_eq!(sink_info.kind, NodeKind::Sink);
    assert_eq!(sink_info.deps.len(), 1);
}

#[test]
fn test_parallel_independent_branches() {
    let mut engine: Engine<f64> = Engine::new();
    let g = engine.graph();

    let s1: NodeRef<f64> = Graph::source("p.s1").on_activate(|_tx: Sender<f64>| ()).build(g);
    let s2: NodeRef<f64> = Graph::source("p.s2").on_activate(|_tx: Sender<f64>| ()).build(g);

    // Each compute records that it ran.
    let runs = Arc::new(Mutex::new(Vec::new()));

    let t1 = runs.clone();
    let c1: NodeRef<f64> = Graph::compute("p.c1")
        .dep(s1.clone())
        .compute(move |v: &f64| {
            t1.lock().unwrap().push(1u8);
            v * 2.0
        })
        .build(g);

    let t2 = runs.clone();
    let c2: NodeRef<f64> = Graph::compute("p.c2")
        .dep(s2.clone())
        .compute(move |v: &f64| {
            t2.lock().unwrap().push(2u8);
            v * 3.0
        })
        .build(g);

    let sink1: NodeRef<()> = Graph::sink("p.sink1").dep(c1.clone()).on_emit(|_: &f64| {}).build(g);
    let sink2: NodeRef<()> = Graph::sink("p.sink2").dep(c2.clone()).on_emit(|_: &f64| {}).build(g);

    engine.activate_sink(&sink1.id);
    engine.activate_sink(&sink2.id);

    let tx = engine.graph.source_tx.clone();
    tx.send((s1.id.clone(), 5.0_f64)).unwrap();
    tx.send((s2.id.clone(), 7.0_f64)).unwrap();

    engine.run_cycle_parallel();

    assert_eq!(engine.graph.value_store.get(&c1), Some(&10.0));
    assert_eq!(engine.graph.value_store.get(&c2), Some(&21.0));

    // Both computes ran, in one wave.
    let r = runs.lock().unwrap();
    assert_eq!(r.len(), 2);
}

#[test]
fn async_results_flow_through_the_next_cycle() {
    // The work of an async node here is the value it will deliver.
    let mut engine: Engine<f64, f64> = Engine::new();
    let g = engine.graph();
    let source: NodeRef<f64> = Graph::source("async.src").on_activate(|_tx: Sender<f64>| ()).build(g);
    let doubled: NodeRef<f64> = Graph::async_compute("async.double").dep(source.clone()).compute_async(|v: &f64| *v * 2.0).build(g);
    let plus_one: NodeRef<f64> = Graph::compute("async.add1").dep(doubled.clone()).compute(|v: &f64| v + 1.0).build(g);
    let sink_values = Arc::new(Mutex::new(Vec::new()));
    let sv = sink_values.clone();
    let sink: NodeRef<()> = Graph::sink("async.sink")
        .dep(plus_one.clone())
        .on_emit(move |v: &f64| {
            sv.lock().unwrap().push(*v);
        })
        .build(g);
    engine.activate_sink(&sink.id);

    engine.graph.source_tx.send((source.id.clone(), 5.0)).unwrap();
    // First cycle: the async node hands out its work; downstream does not run yet.
    engine.run_cycle();
    assert_eq!(engine.graph.value_store.get(&plus_one), None);
    let actions = engine.async_manager.take_actions();
    assert_eq!(actions.len(), 1);
    let results = engine.async_manager.result_sender();
    for action in actions {
        match action {
            AsyncAction::Start { node, work, delay } => {
                assert_eq!(node, doubled.id);
                assert!(delay.is_none());
                results.send((node, work)).unwrap();
            }
            AsyncAction::Abort { .. } => panic!("nothing to abort"),
        }
    }
    // Second cycle: the result arrives and propagates.
    engine.run_cycle();
    assert_eq!(engine.graph.value_store.get(&doubled), Some(&10.0));
    assert_eq!(engine.graph.value_store.get(&plus_one), Some(&11.0));
    assert_eq!(*sink_values.lock().unwrap(), vec![11.0]);
}
