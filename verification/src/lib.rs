//! Verified core of the DataForge engine: the agent's run loop decisions,
//! the assisted-intelligence disclosure and consent checks and their policy, and the pure
//! evidence helpers of the storage layer.

pub mod agent;
pub mod ai;
pub mod db;
pub mod cli;
pub mod desktop;
pub mod text;
pub mod json;
pub mod json_read;
pub mod digest;
