//! The messages that the stake engine takes and the answers it gives.

use crate::decimal::Decimal;
use crate::stake::claim::Claim;
use crate::stake::state::Config;
use crate::time::{Duration, Expiration};
use crate::types::{Coin, Member};
use vstd::prelude::*;

verus! {

#[derive(Clone, Debug, PartialEq, Eq)]
pub struct InstantiateMsg {
    /// The denom of the tokens that can be bonded.
    pub denom: String,
    /// The tokens that one point costs; at least one.
    pub tokens_per_point: u128,
    /// The least stake that makes a member; zero counts as one.
    pub min_bond: u128,
    /// The seconds between unbonding and release.
    pub unbonding_period: u64,
    pub admin: Option<String>,
    pub preauths_hooks: u64,
    pub preauths_slashing: u64,
    /// The most claims that are released at the end of one block; none are, for zero.
    pub auto_return_limit: u64,
}

#[derive(Clone, Debug, PartialEq, Eq)]
pub enum ExecuteMsg {
    /// Bonds the funds sent with the message and, where named, vesting tokens of the sender.
    Bond { vesting_tokens: Option<Coin> },
    /// Unbonds `tokens`, which can be claimed after the unbonding period.
    Unbond { tokens: Coin },
    /// Pays out the mature claims of the sender.
    Claim,
    UpdateAdmin { admin: Option<String> },
    AddHook { addr: String },
    RemoveHook { addr: String },
    AddSlasher { addr: String },
    RemoveSlasher { addr: String },
    Slash { addr: String, portion: Decimal },
}

/// Whether the host gave the engine its privileges or took them.
#[derive(Clone, Copy, Debug, PartialEq, Eq)]
pub enum PrivilegeChangeMsg {
    Promoted,
    Demoted,
}

#[derive(Clone, Copy, Debug, PartialEq, Eq)]
pub enum SudoMsg {
    PrivilegeChange(PrivilegeChangeMsg),
    BeginBlock,
    EndBlock,
}

#[derive(Clone, Debug, PartialEq, Eq)]
pub enum QueryMsg {
    Configuration,
    Claims { address: String, limit: Option<u32>, start_after: Option<Expiration> },
    Staked { address: String },
    UnbondingPeriod,
    Admin,
    TotalPoints,
    ListMembers { start_after: Option<String>, limit: Option<u32> },
    ListMembersByPoints { start_after: Option<Member>, limit: Option<u32> },
    Member { addr: String, at_height: Option<u64> },
    Hooks,
    Preauths,
    IsSlasher { addr: String },
    ListSlashers,
}

#[derive(Clone, Copy, Debug, PartialEq, Eq)]
pub struct MigrateMsg {
    pub tokens_per_point: Option<u128>,
    pub min_bond: Option<u128>,
    pub unbonding_period: Option<u64>,
    pub auto_return_limit: Option<u64>,
}

#[derive(Clone, Debug, PartialEq, Eq)]
pub struct StakedResponse {
    pub liquid: Coin,
    pub vesting: Coin,
}

#[derive(Clone, Debug, PartialEq, Eq)]
pub struct ClaimsResponse {
    pub claims: Vec<Claim>,
}

#[derive(Clone, Copy, Debug, PartialEq, Eq)]
pub struct UnbondingPeriodResponse {
    pub unbonding_period: Duration,
}

#[derive(Clone, Debug, PartialEq, Eq)]
pub struct MemberResponse {
    pub points: Option<u64>,
    pub start_height: Option<u64>,
}

#[derive(Clone, Debug, PartialEq, Eq)]
pub struct MemberListResponse {
    pub members: Vec<Member>,
}

#[derive(Clone, Copy, Debug, PartialEq, Eq)]
pub struct TotalPointsResponse {
    pub points: u64,
}

/// The answer to a query, one variant for each kind of question.
#[derive(Clone, Debug, PartialEq, Eq)]
pub enum QueryResponse {
    Configuration(Config),
    Claims(ClaimsResponse),
    Staked(StakedResponse),
    UnbondingPeriod(UnbondingPeriodResponse),
    Admin(Option<String>),
    TotalPoints(TotalPointsResponse),
    MemberList(MemberListResponse),
    Member(MemberResponse),
    Hooks(Vec<String>),
    Preauths(u64),
    IsSlasher(bool),
    Slashers(Vec<String>),
}

} // verus!
