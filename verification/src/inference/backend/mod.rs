//! Backends that run outside: what they are asked, and what their answers
//! mean.

pub mod flashinfer;
pub mod gpu;
pub mod http_openai;
pub mod kernel;
pub mod kernel_smoke;
pub mod local_engine;
pub mod sglang_lite;
