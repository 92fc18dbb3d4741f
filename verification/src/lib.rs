//! Verified core of a proof-of-engagement stack: point-weighted reward
//! accounting, bonded stake with time-locked claims, and validator-set rules.
//!
//! Every engine is a state machine over plain values. The host that runs an
//! engine loads its state, calls one transition and stores the result.

pub mod controllers;
pub mod decimal;
pub mod engagement;
pub mod error;
pub mod keyed;
pub mod members;
pub mod stake;
pub mod text;
pub mod time;
pub mod types;
pub mod valset;
