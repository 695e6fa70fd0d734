//! The outer surface: handles on trajectories, chat requests, and the bridge
//! for engines without tools.

pub mod native;
pub mod openai_compat;
pub mod tool_bridge;
pub mod bridge_laws;
