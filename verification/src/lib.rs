//! Long-term memory for coding agents: the domain model, the command
//! interpreter, the daemon protocol and the tools, with their behaviour stated
//! and proved.

pub mod canonical;
pub mod compatibility;
pub mod daemon;
pub mod dates;
pub mod digest;
pub mod domain;
pub mod double;
pub mod figures;
pub mod lists;
pub mod natural;
pub mod order;
pub mod overlap;
pub mod rank;
pub mod shortest;
pub mod signed;
pub mod text;
pub mod text_laws;
