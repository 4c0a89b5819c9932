//! Adaptive scheduling hints for LLM requests, learned from completed agent runs.
pub mod adaptive_hints_intercept;
pub mod cache;
pub mod context_helpers;
pub mod dag;
pub mod drain;
pub mod feedback;
pub mod fixed;
pub mod ids;
pub mod json;
pub mod learning;
pub mod model;
pub mod order;
pub mod osl_empirical;
pub mod priority_residual;
pub mod promises;
pub mod records;
pub mod request;
pub mod request_features;
pub mod scalar;
pub mod scheduling;
pub mod scope;
pub mod scope_metadata;
pub mod subscriber;
pub mod table;
pub mod text;
pub mod time;
