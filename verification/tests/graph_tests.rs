use reactive_graph::engine_handle::EngineHandle;
use reactive_graph::graph::{Graph, NodeKind};
use reactive_graph::input_tuple::InputTuple;
use reactive_graph::id_map::IdSet;
use reactive_graph::node::{Compute, Node, Sink, Source};
use reactive_graph::node_ref::{NodeId, NodeRef};
use reactive_graph::sender::Sender;
use reactive_graph::topology::Topology;
use reactive_graph::value_store::ValueStore;
use std::any::Any;
use std::marker::PhantomData;
use std::sync::atomic::{AtomicBool, Ordering};
use std::sync::Arc;

fn make_ref<T: 'static>(name: &str) -> NodeRef<T> {
    NodeRef { id: NodeId::from_key::<_, ()>(name), _marker: PhantomData }
}

fn as_f64(v: Option<&Box<dyn Any>>) -> Option<&f64> {
    v.and_then(|b| b.downcast_ref::<f64>())
}

fn as_string(v: Option<&Box<dyn Any>>) -> Option<&String> {
    v.and_then(|b| b.downcast_ref::<String>())
}

#[test]
fn lib_test_value_store_typed_access() {
    let mut store: ValueStore<Box<dyn Any>> = ValueStore::new();

    let float_ref: NodeRef<f64> = NodeRef { id: NodeId::from_key::<_, ()>("test.float"), _marker: PhantomData };
    let string_ref: NodeRef<String> = NodeRef { id: NodeId::from_key::<_, ()>("test.string"), _marker: PhantomData };

    store.set(&float_ref, Box::new(42.0_f64));
    store.set(&string_ref, Box::new("hello".to_string()));

    assert_eq!(as_f64(store.get(&float_ref)), Some(&42.0));
    assert_eq!(as_string(store.get(&string_ref)), Some(&"hello".to_string()));
}

#[test]
fn value_store_test_value_store_typed_access() {
    let mut store: ValueStore<Box<dyn Any>> = ValueStore::new();

    let float_ref = make_ref::<f64>("test.float");
    let string_ref = make_ref::<String>("test.string");

    store.set(&float_ref, Box::new(42.0_f64));
    store.set(&string_ref, Box::new("hello".to_string()));

    assert_eq!(as_f64(store.get(&float_ref)), Some(&42.0));
    assert_eq!(as_string(store.get(&string_ref)), Some(&"hello".to_string()));

    // Update
    store.set(&float_ref, Box::new(99.0_f64));
    assert_eq!(as_f64(store.get(&float_ref)), Some(&99.0));

    // Remove
    store.remove(&float_ref.id);
    assert!(store.get(&float_ref).is_none());
}

#[test]
fn test_source_builder_produces_node_ref() {
    let mut graph: Graph<f64> = Graph::new();
    let activated = Arc::new(AtomicBool::new(false));
    let activated_clone = activated.clone();

    let source: NodeRef<f64> = Graph::source("my.source")
        .on_activate(move |_tx: Sender<f64>| {
            activated_clone.store(true, Ordering::SeqCst);
        })
        .build(&mut graph);

    // Node is registered
    assert!(graph.get_entry(&source.id).is_some());
    let entry = graph.get_entry(&source.id).unwrap();
    assert_eq!(entry.kind, NodeKind::Source);
    assert_eq!(entry.ref_count, 1);
}

#[test]
fn test_compute_builder_type_safety() {
    let mut graph: Graph<f64> = Graph::new();

    let s1: NodeRef<f64> = Graph::source("s1").on_activate(|_tx: Sender<f64>| ()).build(&mut graph);
    let s2: NodeRef<f64> = Graph::source("s2").on_activate(|_tx: Sender<f64>| ()).build(&mut graph);

    let compute: NodeRef<f64> = Graph::compute("sum")
        .dep(s1)
        .dep(s2)
        .compute(|a: &f64, b: &f64| a + b)
        .build(&mut graph);

    let entry = graph.get_entry(&compute.id).unwrap();
    assert_eq!(entry.kind, NodeKind::Compute);
    assert_eq!(entry.deps.len(), 2);
}

#[test]
fn test_sink_builder() {
    let mut graph: Graph<f64> = Graph::new();

    let s1: NodeRef<f64> = Graph::source("s1").on_activate(|_tx: Sender<f64>| ()).build(&mut graph);

    let sink: NodeRef<()> = Graph::sink("my.sink")
        .dep(s1)
        .on_emit(|_v: &f64| {
            // emit callback
        })
        .build(&mut graph);

    let entry = graph.get_entry(&sink.id).unwrap();
    assert_eq!(entry.kind, NodeKind::Sink);
    assert_eq!(entry.deps.len(), 1);
}

// --- Trait-based node types for testing ---
#[derive(Debug)]
struct TestSource {
    key: String,
}

impl Node for TestSource {
    type Output = f64;
    type Key = String;
    fn key(&self) -> String {
        self.key.clone()
    }
}

impl Source for TestSource {
    type Guard = ();
    fn activate(&self, _tx: Sender<f64>) {}
}

#[derive(Debug)]
struct TestCompute {
    key: String,
}

impl Node for TestCompute {
    type Output = f64;
    type Key = String;
    fn key(&self) -> String {
        self.key.clone()
    }
}

impl Compute for TestCompute {
    type Inputs = (f64, f64);
    fn compute(&self, (a, b): (&f64, &f64)) -> f64 {
        a + b
    }
}

#[derive(Debug)]
struct TestSinkNode {
    key: String,
}

impl Sink for TestSinkNode {
    type Inputs = (f64,);
    type Key = String;
    fn key(&self) -> String {
        self.key.clone()
    }
    fn emit(&self, (_v,): (&f64,)) {}
}

#[test]
fn test_trait_compute_builder() {
    let mut graph: Graph<f64> = Graph::new();

    let s1 = graph.add_source(TestSource { key: "ts1".to_string() });
    let s2 = graph.add_source(TestSource { key: "ts2".to_string() });

    let compute: NodeRef<f64> = graph.add_compute(TestCompute { key: "tc".to_string() }).dep(s1).dep(s2).build();

    let entry = graph.get_entry(&compute.id).unwrap();
    assert_eq!(entry.kind, NodeKind::Compute);
    assert_eq!(entry.deps.len(), 2);
}

#[test]
fn test_trait_sink_builder() {
    let mut graph: Graph<f64> = Graph::new();

    let s1 = graph.add_source(TestSource { key: "ts_for_sink".to_string() });

    let sink: NodeRef<()> = graph.add_sink(TestSinkNode { key: "tsink".to_string() }).dep(s1).build();

    let entry = graph.get_entry(&sink.id).unwrap();
    assert_eq!(entry.kind, NodeKind::Sink);
}

#[test]
fn test_node_deduplication() {
    let mut graph: Graph<f64> = Graph::new();

    let s1 = graph.add_source(TestSource { key: "shared".to_string() });
    let s2 = graph.add_source(TestSource { key: "shared".to_string() });

    // Same key -> same NodeRef (same NodeId)
    assert_eq!(s1.id, s2.id);
    // ref_count should be 2
    let entry = graph.get_entry(&s1.id).unwrap();
    assert_eq!(entry.ref_count, 2);
}

#[test]
fn test_closure_and_trait_interop() {
    let mut graph: Graph<f64> = Graph::new();

    // Trait-based source
    let trait_source = graph.add_source(TestSource { key: "trait.source".to_string() });

    // Closure-based compute depending on trait source
    let doubled: NodeRef<f64> = Graph::compute("doubled")
        .dep(trait_source.clone())
        .compute(|v: &f64| v * 2.0)
        .build(&mut graph);

    let entry = graph.get_entry(&doubled.id).unwrap();
    assert_eq!(entry.kind, NodeKind::Compute);
    assert_eq!(entry.deps.len(), 1);
    assert_eq!(entry.deps[0], trait_source.id);
}

fn diamond() -> (Topology, NodeId, NodeId, NodeId, NodeId) {
    let mut topo = Topology::new();
    let s = NodeId::from_key::<_, ()>("S");
    let a = NodeId::from_key::<_, ()>("A");
    let b = NodeId::from_key::<_, ()>("B");
    let c = NodeId::from_key::<_, ()>("C2");
    topo.add_node(s.clone(), vec![]);
    topo.add_node(a.clone(), vec![s.clone()]);
    topo.add_node(b.clone(), vec![s.clone()]);
    topo.add_node(c.clone(), vec![a.clone(), b.clone()]);
    (topo, s, a, b, c)
}

#[test]
fn lib_test_topo_sort_correctness() {
    let (topo, s, a, b, c) = diamond();

    let mut dirty_sources = IdSet::new();
    dirty_sources.insert(s.clone());
    let dirty = topo.dirty_set(&dirty_sources);
    let sorted = topo.topo_sort(&dirty);

    assert_eq!(sorted.len(), 3);
    let pos_a = sorted.iter().position(|n| *n == a).unwrap();
    let pos_b = sorted.iter().position(|n| *n == b).unwrap();
    let pos_c = sorted.iter().position(|n| *n == c).unwrap();
    assert!(pos_c > pos_a);
    assert!(pos_c > pos_b);
}

#[test]
fn topology_test_topo_sort_correctness() {
    let mut topo = Topology::new();

    // S -> A -> C
    // S -> B -> C
    let s = NodeId::from_key::<_, ()>("S");
    let a = NodeId::from_key::<_, ()>("A");
    let b = NodeId::from_key::<_, ()>("B");
    let c = NodeId::from_key::<_, ()>("C");

    topo.add_node(s.clone(), vec![]);
    topo.add_node(a.clone(), vec![s.clone()]);
    topo.add_node(b.clone(), vec![s.clone()]);
    topo.add_node(c.clone(), vec![a.clone(), b.clone()]);

    let mut dirty_sources = IdSet::new();
    dirty_sources.insert(s.clone());
    let dirty = topo.dirty_set(&dirty_sources);

    assert!(dirty.contains(&a));
    assert!(dirty.contains(&b));
    assert!(dirty.contains(&c));
    assert!(!dirty.contains(&s)); // sources themselves are not in dirty set

    let sorted = topo.topo_sort(&dirty);
    assert_eq!(sorted.len(), 3);

    // C must come after both A and B
    let pos_a = sorted.iter().position(|n| n == &a).unwrap();
    let pos_b = sorted.iter().position(|n| n == &b).unwrap();
    let pos_c = sorted.iter().position(|n| n == &c).unwrap();
    assert!(pos_c > pos_a);
    assert!(pos_c > pos_b);
}

#[test]
fn remove_node_takes_the_node_out_of_its_dependencies_lists() {
    let (mut topo, s, a, _b, c) = diamond();
    topo.remove_node(&a);
    let mut sources = IdSet::new();
    sources.insert(s.clone());
    let dirty = topo.dirty_set(&sources);
    // A is gone; C is still reached through B.
    assert!(!dirty.contains(&a));
    assert!(dirty.contains(&c));
    assert_eq!(dirty.len(), 2);
}

#[test]
fn dirty_set_of_a_leaf_is_empty() {
    let (topo, _s, _a, _b, c) = diamond();
    let mut sources = IdSet::new();
    sources.insert(c.clone());
    let dirty = topo.dirty_set(&sources);
    assert!(dirty.is_empty());
    assert!(topo.topo_sort(&dirty).is_empty());
}

#[test]
fn read_after_write_and_remove_on_a_store() {
    let mut store: ValueStore<i64> = ValueStore::new();
    let a = NodeId::from_key::<_, ()>("a");
    let b = NodeId::from_key::<_, ()>("b");
    store.set_by_id(&a, 1);
    store.set_by_id(&b, 2);
    store.set_by_id(&a, 3);
    assert_eq!(store.get_by_id(&a), Some(&3));
    assert_eq!(store.get_by_id(&b), Some(&2));
    store.remove(&a);
    assert!(!store.contains(&a));
    assert_eq!(store.get_by_id(&b), Some(&2));
}

#[test]
fn ids_of_different_scopes_differ() {
    let x = NodeId::from_key::<_, ()>("k");
    let y = NodeId::from_key::<_, TestSource>("k");
    let z = NodeId::from_key::<_, ()>("k");
    assert!(!x.same(&y));
    assert!(x.same(&z));
    assert_eq!(x.key(), "k");
}

fn assert_input_tuple<T: InputTuple>() {}

fn assert_send<T: Send>() {}

fn assert_clone<T: Clone>() {}

#[test]
fn input_tuple_test_input_tuple_arities() {
    // The trait is implemented for arities 1-4
    assert_input_tuple::<(f64,)>();
    assert_input_tuple::<(f64, f64)>();
    assert_input_tuple::<(f64, String, i32)>();
    assert_input_tuple::<(f64, String, i32, bool)>();
}

#[test]
fn lib_test_input_tuple_arities() {
    assert_input_tuple::<(f64,)>();
    assert_input_tuple::<(f64, f64)>();
    assert_input_tuple::<(f64, String, i32)>();
    assert_input_tuple::<(f64, String, i32, bool)>();
}

#[test]
fn test_engine_handle_send_sync() {
    assert_send::<EngineHandle<f64>>();
    // The command sender is not Sync, but the handle is Clone so each thread gets its own.
    assert_clone::<EngineHandle<f64>>();
}
