//! The tools that agents call, and what they find out.

pub mod analysis_laws;
pub mod analytics;
pub mod conflict_laws;
pub mod conflicts;
pub mod intelligence;
pub mod patterns;
pub mod privacy;
pub mod proactive;
pub mod reference;
pub mod tool_args;
pub mod wire;
