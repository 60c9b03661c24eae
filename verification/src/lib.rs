//! Bounded disk-usage scanning: resource limits, size-ordered result trees,
//! shared scan counters and the rules that tie them together.

pub mod actions;
pub mod builder;
pub mod coordinator;
pub mod laws;
pub mod limits;
pub mod node;
pub mod order;
pub mod snapshot;
