//! The validator engine: operators with their consensus keys and metadata,
//! and the rules by which its messages are checked.

pub mod contract;
pub mod entry;
pub mod laws;
pub mod msg;
pub mod state;
