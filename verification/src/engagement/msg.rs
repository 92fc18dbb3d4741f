//! The messages that the engagement engine takes and the answers it gives.

use crate::decimal::Decimal;
use crate::engagement::state::{Distribution, WithdrawAdjustment};
use crate::time::Duration;
use crate::types::{Coin, Member, MemberDiff, Timestamp};
use vstd::prelude::*;

verus! {

#[derive(Clone, Debug, PartialEq, Eq)]
pub struct InstantiateMsg {
    /// The admin is the only account that can update the members after instantiation.
    pub admin: Option<String>,
    pub members: Vec<Member>,
    pub preauths_hooks: u64,
    pub preauths_slashing: u64,
    /// The period after which the points of all members are halved; never, where `None`.
    pub halflife: Option<Duration>,
    /// The denom of the rewards.
    pub denom: String,
}

#[derive(Clone, Debug, PartialEq, Eq)]
pub enum ExecuteMsg {
    UpdateAdmin { admin: Option<String> },
    UpdateMembers { remove: Vec<String>, add: Vec<Member> },
    AddPoints { addr: String, points: u64 },
    AddHook { addr: String },
    RemoveHook { addr: String },
    DistributeRewards { sender: Option<String> },
    WithdrawRewards { owner: Option<String>, receiver: Option<String> },
    DelegateWithdrawal { delegated: String },
    AddSlasher { addr: String },
    RemoveSlasher { addr: String },
    Slash { addr: String, portion: Decimal },
}

/// Whether the host gave the engine its privileges or took them.
#[derive(Clone, Copy, Debug, PartialEq, Eq)]
pub enum PrivilegeChangeMsg {
    Promoted,
    Demoted,
}

#[derive(Clone, Debug, PartialEq, Eq)]
pub enum SudoMsg {
    /// A trusted edit of one member.
    UpdateMember(Member),
    PrivilegeChange(PrivilegeChangeMsg),
    BeginBlock,
    EndBlock,
}

#[derive(Clone, Debug, PartialEq, Eq)]
pub enum QueryMsg {
    Member { addr: String, at_height: Option<u64> },
    ListMembers { start_after: Option<String>, limit: Option<u32> },
    ListMembersByPoints { start_after: Option<Member>, limit: Option<u32> },
    TotalPoints,
    Admin,
    Hooks,
    Preauths,
    WithdrawableRewards { owner: String },
    DistributedRewards,
    UndistributedRewards,
    Delegated { owner: String },
    Halflife,
    IsSlasher { addr: String },
    ListSlashers,
    DistributionData,
    WithdrawAdjustmentData { addr: String },
}

#[derive(Clone, Copy, Debug, PartialEq, Eq)]
pub struct MigrateMsg {
    /// A new halflife; zero seconds ends the halving.
    pub halflife: Option<Duration>,
}

#[derive(Clone, Copy, Debug, PartialEq, Eq)]
pub struct HalflifeInfo {
    pub last_halflife: Timestamp,
    pub halflife: Duration,
    pub next_halflife: Timestamp,
}

#[derive(Clone, Copy, Debug, PartialEq, Eq)]
pub struct HalflifeResponse {
    pub halflife_info: Option<HalflifeInfo>,
}

#[derive(Clone, Debug, PartialEq, Eq)]
pub struct MemberResponse {
    pub points: Option<u64>,
    pub start_height: Option<u64>,
}

#[derive(Clone, Debug, PartialEq, Eq)]
pub struct MemberListResponse {
    pub members: Vec<Member>,
}

#[derive(Clone, Copy, Debug, PartialEq, Eq)]
pub struct TotalPointsResponse {
    pub points: u64,
}

#[derive(Clone, Debug, PartialEq, Eq)]
pub struct RewardsResponse {
    pub rewards: Coin,
}

#[derive(Clone, Debug, PartialEq, Eq)]
pub struct DelegatedResponse {
    pub delegated: String,
}

/// The changes of membership that the hooks are told of.
#[derive(Clone, Debug, PartialEq, Eq)]
pub struct MemberChangedHookMsg {
    pub diffs: Vec<MemberDiff>,
}

/// The answer to a query, one variant for each kind of question.
#[derive(Clone, Debug, PartialEq, Eq)]
pub enum QueryResponse {
    Member(MemberResponse),
    MemberList(MemberListResponse),
    TotalPoints(TotalPointsResponse),
    Admin(Option<String>),
    Hooks(Vec<String>),
    Preauths(u64),
    Rewards(RewardsResponse),
    Delegated(DelegatedResponse),
    Halflife(HalflifeResponse),
    IsSlasher(bool),
    Slashers(Vec<String>),
    DistributionData(Distribution),
    WithdrawAdjustmentData(Option<WithdrawAdjustment>),
}

} // verus!
