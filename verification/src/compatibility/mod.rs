//! Compatibility with other memory services.

pub mod lemma;
