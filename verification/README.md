# reactive_graph

A reactive computation graph engine, written in Verus. You define sources,
compute nodes and sinks; when a source value changes, the engine finds the
nodes that depend on it and re-runs only those, dependencies first.

## Layout

- `src/` — the verified library.
  - `topology.rs`: dependency and dependent lists, the dirty set of a change
    (exactly the transitive dependents) and the topological sort.
  - `scheduler.rs`: ready-count execution in waves; every node of a wave runs
    after the dirty nodes it depends on.
  - `engine.rs`: activation, deactivation with reference counts, and the
    propagation cycle (sequential or in waves), with error strategies and
    metrics.
  - `graph.rs`, `value_store.rs`, `id_map.rs`, `node_ref.rs`: the registry
    of nodes, their values and their identifiers.
  - `async_compute.rs`: async work with latest-wins, queue and debounce
    policies and concurrency groups, as a state machine that hands out
    actions to run.
  - `subgraph.rs`, `builder/`: building nodes and subgraphs, merging them
    into a live engine and releasing them again.
  - `event_loop.rs`, `command.rs`, `engine_handle.rs`: the commands that
    drive an engine running on its own thread.
- `app/` — what runs around the library: the engine thread and its loop, and
  a tokio runtime that performs the async actions.
- `tests/` — tests of the library.

## What is proved

The public functions state their effect in their contracts, over a model of
the engine (registry, values, active set, topology, reference counts, async
tasks). Among the properties proved: a cycle leaves every node outside the
dirty set alone and, where the topology agrees with the registered
dependencies on the dirty set, runs each dirty node once, after its
dependencies; waves respect dependencies; a group never runs more tasks than
its limit; removing a node from the topology undoes adding it; releasing a
merged subgraph gives up one reference per node it brought in, so nodes that
another subgraph still uses stay alive; a retried computation stops at its
first success or after its attempts; a cycle hands the async manager the
work of its async nodes, in order.

The engine keeps two ghost logs: the sinks it called, each with the values
of its dependencies, and the nodes whose computation it invoked. A cycle's
contract says which sinks it calls, with which values, and, for a run in
waves, that each compute node is invoked once. What the closures given to the
builders compute, and what a sink does with its values, are the user's and
are not modelled; nor is what crosses a channel to another thread.
