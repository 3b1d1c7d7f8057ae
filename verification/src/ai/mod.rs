//! Optional, non-executing assisted intelligence: explanations and label
//! suggestions only, prepared in two phases so the exact disclosure can be
//! inspected before one cloud disclosure is consented to.

pub mod types;
pub mod policy;
pub mod redaction;
pub mod schema;
pub mod engine;
pub mod response;
pub mod provider;
