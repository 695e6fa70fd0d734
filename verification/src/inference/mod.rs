//! Inference: chunked generation and what backs it.

pub mod backend;
pub mod charsmap;
pub mod chunked;
pub mod compress;
pub mod description;
pub mod engine;
pub mod kv_laws;
pub mod kv_pool;
pub mod kv_select;
pub mod local_plan;
pub mod local_run;
pub mod local_walk;
pub mod patterns;
pub mod rank;
pub mod tokenizer;
pub mod weights;
pub mod toy_weights;
