//! Weights on disk: what tensors hold, and which of them a layer needs.

pub mod catalog;
pub mod dtype;
pub mod expert_lru;
pub mod hf_config;
pub mod layers;
pub mod model;
pub mod weight_laws;
