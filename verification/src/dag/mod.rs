//! Completed-run graphs, the critical-path method over them, and the learned state.
pub mod cpm;
pub mod critical_path;
pub mod graph;
pub mod state;
pub mod topology;
