//! Planning and compilation of visually authored data pipelines.
//!
//! A pipeline is a graph of processing nodes joined by directed edges. This
//! crate orders the nodes for execution, compiles nested filter rules into
//! predicates, has the DataFusion engine apply each node to a table, and
//! renders the engine's result for a preview.

pub mod claims;
pub mod engine;
pub mod executor;
pub mod extraction;
pub mod filter;
pub mod graph;
pub mod literal;
pub mod model;
pub mod order_laws;
pub mod planner;
pub mod preview;
pub mod render;
pub mod transform;
