//! The GitHub provider: its configuration and payload shapes, the pure
//! parts of its client, and its per-repository metadata rules.

pub mod analyzer;
pub mod client;
pub mod types;
