//! Data models: the input records and the vehicle agent.

pub mod graph_input;
pub mod vehicle;
pub mod vehicle_builder;
