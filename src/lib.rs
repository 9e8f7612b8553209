//! Core of a local workflow orchestrator: a graph of plugin invocations, its
//! validation, and the scheduler that drives it.

pub mod graph;
pub mod validate;
pub mod engine;
pub mod laws;
pub mod plugin;
pub mod registry;
pub mod invoke;
pub mod editor;
