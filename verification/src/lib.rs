//! A distributed discrete-step traffic simulator core.
//!
//! A road network is a directed graph whose vertices carry planar
//! coordinates and whose edges carry scalar lengths.  The graph is split
//! into vertical bands, one per worker; vehicles walk precomputed paths,
//! consuming edge length at a fixed per-vehicle speed, and are handed
//! between workers when their path leaves the local band.

pub mod cli;
pub mod codec;
pub mod error;
pub mod graph;
pub mod models;
pub mod utils;
pub mod vmpi;
pub mod world;
