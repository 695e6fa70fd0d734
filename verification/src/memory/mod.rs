//! Logical prefix tree with radix sharing, and the physical blocks behind it.

pub mod block_pool;
pub mod eviction;
pub mod manager;
pub mod manager_laws;
pub mod prefix_laws;
pub mod prefix_radix;
pub mod prefix_tree;
pub mod tier;
