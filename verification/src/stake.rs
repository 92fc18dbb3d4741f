//! The stake engine: bonded tokens that give points, claims on unbonded
//! tokens that mature after a time, and slashing.

pub mod claim;
pub mod conservation;
pub mod contract;
pub mod grouping;
pub mod laws;
pub mod limits;
pub mod msg;
pub mod state;
