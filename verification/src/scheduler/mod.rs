//! The unified scheduler: budgets, priorities, pins and the tick.

pub mod budget;
pub mod latency;
pub mod pinning;
pub mod priority;
pub mod scheduler;
pub mod tick_laws;
