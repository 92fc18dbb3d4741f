//! What the stake engine keeps, and how stake gives points.

use crate::controllers::{hook_msgs, Admin, Hooks, Preauth, Slashers};
use crate::keyed::AddrMap;
use crate::members::{lookup, members_set, Members, MembersView};
use crate::stake::claim::Claims;
use crate::time::Duration;
use crate::types::{DiffView, MsgView};
use vstd::prelude::*;

verus! {

/// The settings of the engine.
#[derive(Clone, Debug, PartialEq, Eq)]
pub struct Config {
    /// The denom of the tokens that can be bonded.
    pub denom: String,
    /// The tokens that one point costs; at least one.
    pub tokens_per_point: u128,
    /// The least stake that makes a member; at least one.
    pub min_bond: u128,
    /// The time between unbonding and release.
    pub unbonding_period: Duration,
    /// The most claims that are released at the end of one block; none are, for zero.
    pub auto_return_limit: u64,
}

impl Config {
    /// A copy of the settings.
    pub fn duplicate(&self) -> (c: Config)
        ensures
            c == *self,
    {
        Config {
            denom: self.denom.clone(),
            tokens_per_point: self.tokens_per_point,
            min_bond: self.min_bond,
            unbonding_period: self.unbonding_period,
            auto_return_limit: self.auto_return_limit,
        }
    }
}

/// All that the stake engine keeps.
#[derive(Clone, Debug, PartialEq, Eq)]
pub struct Stake {
    pub admin: Admin,
    pub hooks: Hooks,
    pub preauth_hooks: Preauth,
    pub preauth_slashing: Preauth,
    pub slashers: Slashers,
    pub config: Config,
    pub members: Members,
    /// The liquid stake of each address.
    pub stake: AddrMap<u128>,
    /// The vesting stake of each address.
    pub stake_vesting: AddrMap<u128>,
    pub claims: Claims,
}

/// The points that a stake of `stake` tokens gives: none below `min_bond`,
/// else one for every `tokens_per_point` tokens.
pub open spec fn points_for(stake: int, tokens_per_point: u128, min_bond: u128) -> Option<u64> {
    if stake < min_bond {
        None
    } else {
        Some((stake / (tokens_per_point as int)) as u64)
    }
}

/// The points that a stake of `stake` tokens gives fit in 64 bits.
pub open spec fn points_fit(stake: int, tokens_per_point: u128, min_bond: u128) -> bool {
    stake >= min_bond ==> stake / (tokens_per_point as int) <= u64::MAX
}

/// The tokens under `a` in `m`: none where nothing is on record.
pub open spec fn staked(m: Map<Seq<char>, u128>, a: Seq<char>) -> u128 {
    if m.contains_key(a) {
        m[a]
    } else {
        0
    }
}

/// The members after the points of `addr` became `new`: as they were, where
/// it had those points already.
pub open spec fn membership_updated(m: MembersView, addr: Seq<char>, new: Option<u64>, height: u64) -> MembersView {
    if new == lookup(m.points, addr) {
        m
    } else {
        members_set(m, addr, new, height)
    }
}

/// What the hooks are told when the points of `addr` became `new`: nothing,
/// where it had those points already.
pub open spec fn membership_msgs(hooks: Seq<Seq<char>>, m: MembersView, addr: Seq<char>, new: Option<u64>) -> Seq<
    MsgView,
> {
    if new == lookup(m.points, addr) {
        Seq::empty()
    } else {
        hook_msgs(hooks, seq![DiffView { key: addr, old: lookup(m.points, addr), new }])
    }
}

impl Stake {
    /// The maps and the claims are in order, the points sum to the total, and
    /// the settings are in their ranges.
    pub open spec fn wf(&self) -> bool {
        &&& self.members.wf()
        &&& self.stake.wf()
        &&& self.stake_vesting.wf()
        &&& self.claims.wf()
        &&& self.config.tokens_per_point >= 1
        &&& self.config.min_bond >= 1
    }

    /// The liquid and the vesting stake of `a` together.
    pub open spec fn bonded(&self, a: Seq<char>) -> int {
        staked(self.stake@, a) + staked(self.stake_vesting@, a)
    }

    /// Every address has the points that its stake gives.
    pub open spec fn membership_consistent(&self) -> bool {
        forall|a: Seq<char>|
            lookup(self.members@.points, a) == points_for(
                #[trigger] self.bonded(a),
                self.config.tokens_per_point,
                self.config.min_bond,
            )
    }

    /// The registries and the settings are as in `other`.
    pub open spec fn same_registries(&self, other: &Stake) -> bool {
        &&& self.admin == other.admin
        &&& self.hooks == other.hooks
        &&& self.preauth_hooks == other.preauth_hooks
        &&& self.preauth_slashing == other.preauth_slashing
        &&& self.slashers == other.slashers
        &&& self.config == other.config
    }
}

} // verus!
