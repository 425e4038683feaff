//! The domain: records, commands, the graph and the command interpreter.

pub mod clock;
pub mod command;
pub mod export;
pub mod export_laws;
pub mod graph;
pub mod guide;
pub mod id;
pub mod interpreter;
pub mod laws;
pub mod legacy;
pub mod memory;
pub mod project;
pub mod projection;
pub mod relation;
pub mod score;
pub mod session;
pub mod state;
