//! Whether an operation of the stake engine can be computed within the
//! limits of the machine, told before it is run.

use crate::decimal::{share_of, Decimal, DECIMAL_FRACTIONAL};

use crate::stake::contract::{
    bond_fits, execute_requires, membership_fits, slash_op_fits, sudo_requires, unbond_fits, validate_funds,
    vesting_part,
};
use crate::stake::msg::{ExecuteMsg, SudoMsg};
use crate::stake::state::{staked, Stake};
use crate::types::{coin, views, Coin, Env, MessageInfo};
use vstd::prelude::*;

verus! {

/// Whether the membership of `sender` can be brought in line with a stake of `new_stake` tokens.
pub fn membership_fits_now(state: &Stake, sender: &String, new_stake: u128, height: u64) -> (r: bool)
    requires
        state.wf(),
    ensures
        r == membership_fits(state, sender@, new_stake as int, height),
{
    let old = state.members.may_load(sender);
    let total = state.members.total();
    proof {
        if state.members.current.has(sender@) {
            let i = state.members.current.slot(sender@);
            state.members.current.lemma_slot(i);
            let m = crate::keyed::measures(state.members.current.entries@, crate::members::points_measure());
            assert forall|j: int| 0 <= j < m.len() implies m[j] >= 0 by {}
            crate::keyed::lemma_sum_bounds(m, i);
        }
    }
    let before: u64 = match old {
        Some(p) => p,
        None => 0,
    };
    if new_stake < state.config.min_bond {
        true
    } else {
        let q = new_stake / state.config.tokens_per_point;
        if q > u64::MAX as u128 {
            false
        } else if old == Some(q as u64) {
            true
        } else {
            (total - before) as u128 + q <= u64::MAX as u128
        }
    }
}

/// The stake of `addr` on record in `m`.
fn stake_of(m: &crate::keyed::AddrMap<u128>, addr: &String) -> (r: u128)
    requires
        m.wf(),
    ensures
        r == staked(m@, addr@),
{
    match m.get(addr) {
        Some(s) => *s,
        None => 0,
    }
}

/// Whether a bond of `amount` liquid and `vesting` vesting tokens can be computed.
pub fn bond_fits_now(state: &Stake, sender: &String, amount: u128, vesting: u128, height: u64) -> (r: bool)
    requires
        state.wf(),
    ensures
        r == bond_fits(state, sender@, amount, vesting, height),
{
    let stake = stake_of(&state.stake, sender);
    let vstake = stake_of(&state.stake_vesting, sender);
    if amount.checked_add(vesting).is_none() {
        return false;
    }
    let new_stake = match stake.checked_add(amount) {
        Some(x) => x,
        None => {
            return false;
        },
    };
    let new_vesting = match vstake.checked_add(vesting) {
        Some(x) => x,
        None => {
            return false;
        },
    };
    match new_stake.checked_add(new_vesting) {
        Some(all) => membership_fits_now(state, sender, all, height),
        None => false,
    }
}

/// Whether an unbonding of `amount` tokens, which the stake of the sender covers, can be computed.
pub fn unbond_fits_now(state: &Stake, env: &Env, sender: &String, amount: u128) -> (r: bool)
    requires
        state.wf(),
        vesting_part(staked(state.stake@, sender@), amount) <= staked(state.stake_vesting@, sender@),
    ensures
        r == unbond_fits(state, env, sender@, amount),
{
    let stake = stake_of(&state.stake, sender);
    let vstake = stake_of(&state.stake_vesting, sender);
    if !state.config.unbonding_period.ends_in_range(env.block.time) {
        return false;
    }
    let liquid = if amount <= stake {
        amount
    } else {
        stake
    };
    let vesting = if amount <= stake {
        0
    } else {
        amount - stake
    };
    let completion = state.config.unbonding_period.after(&env.block);
    if !state.claims.create_fits_now(sender, completion.at.nanos, liquid, vesting) {
        return false;
    }
    match (stake - liquid).checked_add(vstake - vesting) {
        Some(left) => membership_fits_now(state, sender, left, env.block.height),
        None => false,
    }
}

/// Whether a slash of `addr` by `portion`, which is at most one, can be computed.
pub fn slash_fits_now(state: &Stake, addr: &String, portion: Decimal, height: u64) -> (r: bool)
    requires
        state.wf(),
        portion.atomics <= DECIMAL_FRACTIONAL,
    ensures
        r == slash_op_fits(state, addr@, portion, height),
{
    let stake = stake_of(&state.stake, addr);
    let vstake = stake_of(&state.stake_vesting, addr);
    let (liquid_claims, vesting_claims) = match state.claims.slash_sums(addr, portion) {
        Some(s) => s,
        None => {
            return false;
        },
    };
    let liquid_slashed = share_of(stake, portion);
    let vesting_slashed = share_of(vstake, portion);
    if liquid_slashed.checked_add(liquid_claims).is_none() || vesting_slashed.checked_add(vesting_claims).is_none() {
        return false;
    }
    match (stake - liquid_slashed).checked_add(vstake - vesting_slashed) {
        Some(left) => membership_fits_now(state, addr, left, height),
        None => false,
    }
}

/// Whether `execute` may be called with these inputs in a well-formed state.
pub fn execute_fits(state: &Stake, env: &Env, info: &MessageInfo, msg: &ExecuteMsg) -> (r: bool)
    requires
        state.wf(),
    ensures
        r == execute_requires(state, env, info, *msg),
{
    match msg {
        ExecuteMsg::Bond { vesting_tokens } => {
            let amount = match validate_funds(&info.funds, &state.config.denom) {
                Ok(a) => a,
                Err(_) => {
                    return true;
                },
            };
            let vesting = match vesting_tokens {
                Some(v) => {
                    let mut one: Vec<Coin> = Vec::new();
                    one.push(coin(v.amount, &v.denom));
                    assert(views(one@) =~= seq![v@]);
                    match validate_funds(&one, &state.config.denom) {
                        Ok(a) => a,
                        Err(_) => {
                            return true;
                        },
                    }
                },
                None => 0,
            };
            if amount == 0 && vesting == 0 {
                true
            } else {
                bond_fits_now(state, &info.sender, amount, vesting, env.block.height)
            }
        },
        ExecuteMsg::Unbond { tokens } => {
            let stake = stake_of(&state.stake, &info.sender);
            let vstake = stake_of(&state.stake_vesting, &info.sender);
            if tokens.amount == 0 || tokens.denom != state.config.denom {
                true
            } else if tokens.amount > stake && tokens.amount - stake > vstake {
                true
            } else {
                unbond_fits_now(state, env, &info.sender, tokens.amount)
            }
        },
        ExecuteMsg::Claim => state.claims.claim_addr_fits(&info.sender, &env.block, None),
        ExecuteMsg::Slash { addr, portion } => {
            if !state.slashers.is_slasher(&info.sender) || !portion.is_portion() {
                true
            } else if !state.stake.contains(addr) && !state.stake_vesting.contains(addr) {
                true
            } else {
                slash_fits_now(state, addr, *portion, env.block.height)
            }
        },
        _ => true,
    }
}

/// Whether `sudo` may be called with these inputs in a well-formed state.
pub fn sudo_fits(state: &Stake, env: &Env, msg: &SudoMsg) -> (r: bool)
    requires
        state.wf(),
    ensures
        r == sudo_requires(state, env, *msg),
{
    match msg {
        SudoMsg::EndBlock => {
            if state.config.auto_return_limit > 0 {
                state.claims.claim_expired_fits(&env.block, Some(state.config.auto_return_limit))
            } else {
                true
            }
        },
        _ => true,
    }
}

} // verus!
