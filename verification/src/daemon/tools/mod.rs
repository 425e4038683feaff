//! The tools.

pub mod add;
pub mod analysis;
pub mod common;
pub mod continuity;
pub mod data;
pub mod detail;
pub mod edit;
pub mod execute;
pub mod explain;
pub mod graph;
pub mod guide_laws;
pub mod guide_text;
pub mod guides;
pub mod library;
pub mod memory_laws;
pub mod overview_laws;
pub mod read;
pub mod read_laws;
pub mod recall_laws;
pub mod retrieval;
pub mod search;
pub mod session_laws;
pub mod session_tool_laws;
pub mod sessions;
pub mod stats;
pub mod suggest;
pub mod suggest_laws;
pub mod tally;
pub mod task_map;
pub mod wording_laws;
