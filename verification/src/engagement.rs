//! The engagement engine: members with points, rewards shared out in
//! proportion to the points, and the periodic halving of the points.

pub mod contract;
pub mod laws;
pub mod limits;
pub mod msg;
pub mod state;
