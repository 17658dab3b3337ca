pub mod node_ref;
pub mod facts;
pub mod id_map;
pub mod topology;
pub mod value_store;
pub mod channel;
pub mod graph;
pub mod error;
pub mod metrics;
pub mod introspection;
pub mod subgraph;
pub mod command;
pub mod async_compute;
pub mod engine;
pub mod scheduler;
pub mod builder;
pub mod node;
pub mod input_tuple;
pub mod sender;
pub mod engine_handle;
pub mod event_loop;
