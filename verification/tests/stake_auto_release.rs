use poe_core::error::ContractError;
use poe_core::stake::contract::{end_block, execute, instantiate, query_staked};
use poe_core::stake::msg::{ExecuteMsg, InstantiateMsg};
use poe_core::stake::state::Stake;
use poe_core::types::{BlockInfo, Coin, Env, MessageInfo, Msg, Response, Timestamp};

// Releasing claims by itself occurs at the end of a block; calling `end_block`
// in a test stands for the end of a block.

const INIT_ADMIN: &str = "juan";
const USER1: &str = "user1";
const USER2: &str = "user2";
const USER3: &str = "user3";
const DENOM: &str = "stake";
const TOKENS_PER_POINT: u128 = 1_000;
const MIN_BOND: u128 = 5_000;
const UNBONDING_DURATION: u64 = 100;

fn mock_env() -> Env {
    Env {
        block: BlockInfo {
            height: 12_345,
            time: Timestamp::from_nanos(1_571_797_419_879_305_533),
        },
    }
}

fn mock_info(sender: &str, funds: &[Coin]) -> MessageInfo {
    MessageInfo {
        sender: sender.to_owned(),
        funds: funds.to_vec(),
    }
}

fn coin(amount: u128, denom: &str) -> Coin {
    Coin {
        denom: denom.to_owned(),
        amount,
    }
}

fn coins(amount: u128, denom: &str) -> Vec<Coin> {
    vec![coin(amount, denom)]
}

fn do_instantiate(
    tokens_per_point: u128,
    min_bond: u128,
    unbonding_period: u64,
    auto_return_limit: u64,
) -> Stake {
    let msg = InstantiateMsg {
        denom: "stake".to_owned(),
        tokens_per_point,
        min_bond,
        unbonding_period,
        admin: Some(INIT_ADMIN.into()),
        preauths_hooks: 1,
        preauths_slashing: 1,
        auto_return_limit,
    };
    let (state, _) = instantiate(&mock_env(), msg).unwrap();
    state
}

// Full stake is composed of `(liquid, illiquid (vesting))` amounts
fn bond(
    state: &mut Stake,
    user1_stake: (u128, u128),
    user2_stake: (u128, u128),
    user3_stake: (u128, u128),
    height_delta: u64,
) {
    let mut env = mock_env();
    env.block.height += height_delta;

    for (addr, stake) in &[
        (USER1, user1_stake),
        (USER2, user2_stake),
        (USER3, user3_stake),
    ] {
        if stake.0 != 0 || stake.1 != 0 {
            let vesting_tokens = if stake.1 != 0 {
                Some(coin(stake.1, DENOM))
            } else {
                None
            };
            let msg = ExecuteMsg::Bond { vesting_tokens };
            let info = mock_info(addr, &coins(stake.0, DENOM));
            execute(state, &env, &info, msg).unwrap();
        }
    }
}

// Helper for staking only liquid assets
fn bond_liquid(state: &mut Stake, user1: u128, user2: u128, user3: u128, height_delta: u64) {
    bond(state, (user1, 0), (user2, 0), (user3, 0), height_delta);
}

// Helper for staking only illiquid assets
fn bond_vesting(state: &mut Stake, user1: u128, user2: u128, user3: u128, height_delta: u64) {
    bond(state, (0, user1), (0, user2), (0, user3), height_delta);
}

fn unbond(
    state: &mut Stake,
    user1: u128,
    user2: u128,
    user3: u128,
    height_delta: u64,
    time_delta: u64,
) {
    let mut env = mock_env();
    env.block.height += height_delta;
    env.block.time = env.block.time.plus_seconds(time_delta);

    for (addr, stake) in &[(USER1, user1), (USER2, user2), (USER3, user3)] {
        if *stake != 0 {
            let msg = ExecuteMsg::Unbond {
                tokens: coin(*stake, DENOM),
            };
            let info = mock_info(addr, &[]);
            execute(state, &env, &info, msg).unwrap();
        }
    }
}

// this tests the member queries of liquid amounts
fn assert_stake_liquid(state: &Stake, user1: u128, user2: u128, user3: u128) {
    let stake1 = query_staked(state, USER1.into());
    assert_eq!(stake1.liquid, coin(user1, DENOM));

    let stake2 = query_staked(state, USER2.into());
    assert_eq!(stake2.liquid, coin(user2, DENOM));

    let stake3 = query_staked(state, USER3.into());
    assert_eq!(stake3.liquid, coin(user3, DENOM));
}

// this tests the member queries of illiquid amounts
fn assert_stake_vesting(state: &Stake, user1: u128, user2: u128, user3: u128) {
    let stake1 = query_staked(state, USER1.into());
    assert_eq!(stake1.vesting, coin(user1, DENOM));

    let stake2 = query_staked(state, USER2.into());
    assert_eq!(stake2.vesting, coin(user2, DENOM));

    let stake3 = query_staked(state, USER3.into());
    assert_eq!(stake3.vesting, coin(user3, DENOM));
}

fn instantiate_with_limit(limit: u64) -> Stake {
    do_instantiate(TOKENS_PER_POINT, MIN_BOND, UNBONDING_DURATION, limit)
}

fn response_of(messages: Vec<Msg>) -> Response {
    let mut response = Response::new();
    response.add_messages(messages);
    response
}

/// Helper for asserting if expected transfers occurred in response. Panics if any other
/// message than a send occurred, or transfers are different than expected.
///
/// Transfers are passed in form of pairs `(addr, amount)`, as for all test in this file
/// expected denom is fixed
fn assert_sends(response: Response, mut expected_transfers: Vec<(&str, u128)>) {
    let mut sends: Vec<_> = response
        .messages
        .into_iter()
        .map(|msg| match msg {
            Msg::Send { to_address, amount } => Ok((
                to_address.clone(),
                amount.amount,
                Msg::Send { to_address, amount },
            )),
            msg => Err(format!(
                "Unexpected message on response, expected only bank send messages: {:?}",
                msg
            )),
        })
        .collect::<Result<_, _>>()
        .unwrap();

    sends.sort_by_key(|(addr, amount_sum, _)| (addr.clone(), *amount_sum));
    // Drop  addr and amount_sum for comparison
    let sends: Vec<_> = sends.into_iter().map(|(_, _, msg)| msg).collect();

    // Tuples are sorted simply first by addresses, then by amount
    expected_transfers.sort_unstable();

    // Build messages for comparison
    let expected_transfers: Vec<_> = expected_transfers
        .into_iter()
        .map(|(addr, amount)| Msg::Send {
            to_address: addr.to_owned(),
            amount: coin(amount, DENOM),
        })
        .collect();

    assert_eq!(sends, expected_transfers);
}

/// Helper for asserting if expected undelegates occurred in response. Panics if any other
/// message than an undelegate occurred, or undelegates are different than expected.
fn assert_undelegates(response: Response, mut expected_transfers: Vec<(&str, u128)>) {
    let mut undelegates: Vec<_> = response
        .messages
        .into_iter()
        .map(|msg| match msg {
            Msg::Undelegate { funds, recipient } => Ok((
                recipient.clone(),
                funds.amount,
                Msg::Undelegate { recipient, funds },
            )),
            msg => Err(format!(
                "Unexpected message on response, expected only undelegate messages: {:?}",
                msg
            )),
        })
        .collect::<Result<_, _>>()
        .unwrap();

    undelegates.sort_by_key(|(addr, amount, _)| (addr.clone(), *amount));
    // Drop  addr and amount for comparison
    let undelegates: Vec<_> = undelegates.into_iter().map(|(_, _, msg)| msg).collect();

    // Tuples are sorted simply first by addresses, then by amounts
    expected_transfers.sort_unstable();

    // Build messages for comparison
    let expected_transfers: Vec<_> = expected_transfers
        .into_iter()
        .map(|(addr, amount)| Msg::Undelegate {
            funds: coin(amount, DENOM),
            recipient: addr.to_owned(),
        })
        .collect();

    assert_eq!(undelegates, expected_transfers);
}

/// Helper for asserting if expected sends and undelegates occurred in response. Panics if
/// any other message occurred, or sends / undelegates are different than expected.
fn assert_sends_undelegates(
    response: Response,
    expected_sends: Vec<(&str, u128)>,
    expected_undelegates: Vec<(&str, u128)>,
) {
    let sends: Vec<Msg> = response
        .clone()
        .messages
        .into_iter()
        .filter(|msg| matches!(msg, Msg::Send { .. }))
        .collect();
    let undelegates: Vec<Msg> = response
        .clone()
        .messages
        .into_iter()
        .filter(|msg| matches!(msg, Msg::Undelegate { .. }))
        .collect();

    assert_sends(response_of(sends.clone()), expected_sends);
    assert_undelegates(response_of(undelegates.clone()), expected_undelegates);

    // Assert there are no other message types
    assert_eq!(
        response.messages.len(),
        sends.len() + undelegates.len(),
        "Unexpected messages in response, expected only bank send or undelegate messages"
    );
}

fn env_after(height_delta: u64, seconds: u64) -> Env {
    let mut env = mock_env();
    env.block.height += height_delta;
    env.block.time = env.block.time.plus_seconds(seconds);
    env
}

#[test]
fn single_claim_liquid() {
    let mut state = instantiate_with_limit(2);

    bond_liquid(&mut state, 12_000, 7_500, 4_000, 1);
    let height_delta = 2;

    unbond(&mut state, 1000, 0, 0, height_delta, 0);
    let env = env_after(height_delta, UNBONDING_DURATION);

    let resp = end_block(&mut state, &env).unwrap();
    assert_sends(resp, vec![(USER1, 1000)]);
}

#[test]
fn single_claim_vesting() {
    let mut state = instantiate_with_limit(2);

    bond_vesting(&mut state, 12_000, 7_500, 4_000, 1);
    let height_delta = 2;

    unbond(&mut state, 1000, 0, 0, height_delta, 0);
    let env = env_after(height_delta, UNBONDING_DURATION);

    let resp = end_block(&mut state, &env).unwrap();
    assert_undelegates(resp, vec![(USER1, 1000)]);
}

#[test]
fn single_claim_mixed() {
    let mut state = instantiate_with_limit(2);

    bond_liquid(&mut state, 1_000, 7_500, 4_000, 1);

    bond_vesting(&mut state, 11_000, 7_500, 4_000, 2);
    let height_delta = 3;

    unbond(&mut state, 1001, 0, 0, height_delta, 0);
    let env = env_after(height_delta, UNBONDING_DURATION);

    let resp = end_block(&mut state, &env).unwrap();
    // liquid stakes are claimed first, then vesting ones as needed
    assert_sends_undelegates(resp, vec![(USER1, 1000)], vec![(USER1, 1)]);
}

#[test]
fn multiple_users_claims_liquid() {
    let mut state = instantiate_with_limit(4);

    bond_liquid(&mut state, 12_000, 7_500, 4_000, 1);
    let height_delta = 2;

    unbond(&mut state, 1000, 500, 0, height_delta, 0);
    unbond(&mut state, 0, 0, 200, height_delta, 1);
    let env = env_after(height_delta, UNBONDING_DURATION + 1);

    let resp = end_block(&mut state, &env).unwrap();
    assert_sends(resp, vec![(USER1, 1000), (USER2, 500), (USER3, 200)]);
}

#[test]
fn multiple_users_claims_vesting() {
    let mut state = instantiate_with_limit(4);

    bond_vesting(&mut state, 12_000, 7_500, 4_000, 1);
    let height_delta = 2;

    unbond(&mut state, 1000, 500, 0, height_delta, 0);
    unbond(&mut state, 0, 0, 200, height_delta, 1);
    let env = env_after(height_delta, UNBONDING_DURATION + 1);

    let resp = end_block(&mut state, &env).unwrap();
    assert_undelegates(resp, vec![(USER1, 1000), (USER2, 500), (USER3, 200)]);
}

#[test]
fn multiple_users_claims_mixed() {
    let mut state = instantiate_with_limit(4);

    bond_liquid(&mut state, 11_000, 7_000, 4_000, 1);
    bond_vesting(&mut state, 1_000, 500, 0, 2);
    let height_delta = 3;

    unbond(&mut state, 12_000, 7_001, 0, height_delta, 0);
    unbond(&mut state, 0, 0, 200, height_delta, 1);
    let env = env_after(height_delta, UNBONDING_DURATION + 1);

    let resp = end_block(&mut state, &env).unwrap();
    assert_sends_undelegates(
        resp,
        vec![(USER1, 11_000), (USER2, 7_000), (USER3, 200)],
        vec![(USER1, 1_000), (USER2, 1)],
    );
}

#[test]
fn single_user_multiple_claims_liquid() {
    let mut state = instantiate_with_limit(3);

    bond_liquid(&mut state, 12_000, 7_500, 4_000, 1);
    let height_delta = 2;

    unbond(&mut state, 1000, 0, 0, height_delta, 0);
    unbond(&mut state, 500, 0, 0, height_delta, 1);
    let env = env_after(height_delta, UNBONDING_DURATION + 1);

    let resp = end_block(&mut state, &env).unwrap();
    assert_sends(resp, vec![(USER1, 1500)]);
}

#[test]
fn single_user_multiple_claims_vesting() {
    let mut state = instantiate_with_limit(3);

    bond_vesting(&mut state, 12_000, 7_500, 4_000, 1);
    let height_delta = 2;

    unbond(&mut state, 1000, 0, 0, height_delta, 0);
    unbond(&mut state, 500, 0, 0, height_delta, 1);
    let env = env_after(height_delta, UNBONDING_DURATION + 1);

    let resp = end_block(&mut state, &env).unwrap();
    assert_undelegates(resp, vec![(USER1, 1500)]);
}

#[test]
fn single_user_multiple_claims_mixed() {
    let mut state = instantiate_with_limit(3);

    bond_vesting(&mut state, 11_000, 7_000, 4_000, 1);
    bond_liquid(&mut state, 1_000, 500, 4_000, 2);
    let height_delta = 3;

    unbond(&mut state, 1001, 0, 0, height_delta, 0);
    unbond(&mut state, 500, 0, 0, height_delta, 1);
    let env = env_after(height_delta, UNBONDING_DURATION + 1);

    let resp = end_block(&mut state, &env).unwrap();
    assert_sends_undelegates(resp, vec![(USER1, 1000)], vec![(USER1, 501)]);
}

#[test]
fn only_expired_claims_liquid() {
    let mut state = instantiate_with_limit(3);

    bond_liquid(&mut state, 12_000, 7_500, 4_000, 1);
    let height_delta = 2;

    // Claims to be returned
    unbond(&mut state, 1000, 0, 0, height_delta, 0);
    unbond(&mut state, 500, 600, 0, height_delta, 1);

    // Clams not yet expired
    unbond(&mut state, 200, 300, 400, height_delta, 2);
    unbond(&mut state, 700, 0, 0, height_delta, 3);
    unbond(&mut state, 0, 100, 50, height_delta, 4);

    let env = env_after(height_delta, UNBONDING_DURATION + 1);

    let resp = end_block(&mut state, &env).unwrap();
    assert_sends(resp, vec![(USER1, 1500), (USER2, 600)]);
}

#[test]
fn only_expired_claims_vesting() {
    let mut state = instantiate_with_limit(3);

    bond_vesting(&mut state, 12_000, 7_500, 4_000, 1);
    let height_delta = 2;

    // Claims to be returned
    unbond(&mut state, 1000, 0, 0, height_delta, 0);
    unbond(&mut state, 500, 600, 0, height_delta, 1);

    // Clams not yet expired
    unbond(&mut state, 200, 300, 400, height_delta, 2);
    unbond(&mut state, 700, 0, 0, height_delta, 3);
    unbond(&mut state, 0, 100, 50, height_delta, 4);

    let env = env_after(height_delta, UNBONDING_DURATION + 1);

    let resp = end_block(&mut state, &env).unwrap();
    assert_undelegates(resp, vec![(USER1, 1500), (USER2, 600)]);
}

#[test]
fn claim_returned_once_liquid() {
    let mut state = instantiate_with_limit(5);

    bond_liquid(&mut state, 12_000, 7_500, 4_000, 1);
    let height_delta = 2;

    // Claims to be returned
    unbond(&mut state, 1000, 0, 0, height_delta, 0);
    unbond(&mut state, 500, 600, 0, height_delta, 1);

    // Clams not yet expired
    unbond(&mut state, 200, 300, 400, height_delta, 2);

    let env = env_after(height_delta, UNBONDING_DURATION + 1);

    let resp = end_block(&mut state, &env).unwrap();
    assert_sends(resp, vec![(USER1, 1500), (USER2, 600)]);

    // Some additional claims
    unbond(&mut state, 700, 0, 0, height_delta, 3);
    unbond(&mut state, 0, 100, 50, height_delta, 4);

    let env = env_after(height_delta, UNBONDING_DURATION + 3);

    // Expected that claims at time offset 2 and 3 are returned (0 and 1 are already
    // returned, 4 is not yet expired)
    let resp = end_block(&mut state, &env).unwrap();
    assert_sends(resp, vec![(USER1, 900), (USER2, 300), (USER3, 400)]);
}

#[test]
fn claim_returned_once_vesting() {
    let mut state = instantiate_with_limit(5);

    bond_vesting(&mut state, 12_000, 7_500, 4_000, 1);
    let height_delta = 2;

    // Claims to be returned
    unbond(&mut state, 1000, 0, 0, height_delta, 0);
    unbond(&mut state, 500, 600, 0, height_delta, 1);

    // Clams not yet expired
    unbond(&mut state, 200, 300, 400, height_delta, 2);

    let env = env_after(height_delta, UNBONDING_DURATION + 1);

    let resp = end_block(&mut state, &env).unwrap();
    assert_undelegates(resp, vec![(USER1, 1500), (USER2, 600)]);

    // Some additional claims
    unbond(&mut state, 700, 0, 0, height_delta, 3);
    unbond(&mut state, 0, 100, 50, height_delta, 4);

    let env = env_after(height_delta, UNBONDING_DURATION + 3);

    // Expected that claims at time offset 2 and 3 are returned (0 and 1 are already
    // returned, 4 is not yet expired)
    let resp = end_block(&mut state, &env).unwrap();
    assert_undelegates(resp, vec![(USER1, 900), (USER2, 300), (USER3, 400)]);
}

#[test]
fn up_to_limit_claims_returned_liquid() {
    let mut state = instantiate_with_limit(2);

    bond_liquid(&mut state, 12_000, 7_500, 4_000, 1);
    let height_delta = 2;

    // Claims to be returned
    unbond(&mut state, 1000, 500, 0, height_delta, 0);
    unbond(&mut state, 0, 600, 0, height_delta, 1);
    unbond(&mut state, 200, 0, 0, height_delta, 2);
    unbond(&mut state, 0, 0, 300, height_delta, 3);

    // Even if all claims are already expired, only two of them (time offset 0) should be
    // returned
    let env = env_after(height_delta, UNBONDING_DURATION + 3);

    let resp = end_block(&mut state, &env).unwrap();
    assert_sends(resp, vec![(USER1, 1000), (USER2, 500)]);

    // Then on next block next batch is returned (time offset 1 and 2)
    let env = env_after(height_delta, UNBONDING_DURATION + 4);

    let resp = end_block(&mut state, &env).unwrap();
    assert_sends(resp, vec![(USER1, 200), (USER2, 600)]);

    // Some additional claims
    unbond(&mut state, 700, 0, 0, height_delta, 5);
    unbond(&mut state, 0, 100, 50, height_delta, 6);

    // Claims are returned in batches
    let env = env_after(height_delta, UNBONDING_DURATION + 6);

    // offset 3 and 5
    let resp = end_block(&mut state, &env).unwrap();
    assert_sends(resp, vec![(USER1, 700), (USER3, 300)]);

    let env = env_after(height_delta, UNBONDING_DURATION + 6);

    // offset 6
    let resp = end_block(&mut state, &env).unwrap();
    assert_sends(resp, vec![(USER2, 100), (USER3, 50)]);
}

#[test]
fn up_to_limit_claims_returned_vesting() {
    let mut state = instantiate_with_limit(2);

    bond_vesting(&mut state, 12_000, 7_500, 4_000, 1);
    let height_delta = 2;

    // Claims to be returned
    unbond(&mut state, 1000, 500, 0, height_delta, 0);
    unbond(&mut state, 0, 600, 0, height_delta, 1);
    unbond(&mut state, 200, 0, 0, height_delta, 2);
    unbond(&mut state, 0, 0, 300, height_delta, 3);

    // Even if all claims are already expired, only two of them (time offset 0) should be
    // returned
    let env = env_after(height_delta, UNBONDING_DURATION + 3);

    let resp = end_block(&mut state, &env).unwrap();
    assert_undelegates(resp, vec![(USER1, 1000), (USER2, 500)]);

    // Then on next block next batch is returned (time offset 1 and 2)
    let env = env_after(height_delta, UNBONDING_DURATION + 4);

    let resp = end_block(&mut state, &env).unwrap();
    assert_undelegates(resp, vec![(USER1, 200), (USER2, 600)]);

    // Some additional claims
    unbond(&mut state, 700, 0, 0, height_delta, 5);
    unbond(&mut state, 0, 100, 50, height_delta, 6);

    // Claims are returned in batches
    let env = env_after(height_delta, UNBONDING_DURATION + 6);

    // offset 3 and 5
    let resp = end_block(&mut state, &env).unwrap();
    assert_undelegates(resp, vec![(USER1, 700), (USER3, 300)]);

    let env = env_after(height_delta, UNBONDING_DURATION + 6);

    // offset 6
    let resp = end_block(&mut state, &env).unwrap();
    assert_undelegates(resp, vec![(USER2, 100), (USER3, 50)]);
}

#[test]
fn unbound_with_invalid_denom_fails_liquid() {
    let mut state = instantiate_with_limit(2);

    bond_liquid(&mut state, 5_000, 0, 0, 1);
    let height_delta = 2;

    let mut env = mock_env();
    env.block.height += height_delta;

    let msg = ExecuteMsg::Unbond {
        tokens: coin(5_000, "invalid"),
    };
    let info = mock_info(USER1, &[]);
    let err = execute(&mut state, &env, &info, msg).unwrap_err();

    assert_eq!(ContractError::InvalidDenom {}, err);
}

#[test]
fn unbound_with_invalid_denom_fails_vesting() {
    let mut state = instantiate_with_limit(2);

    bond_vesting(&mut state, 5_000, 0, 0, 1);
    let height_delta = 2;

    let mut env = mock_env();
    env.block.height += height_delta;

    let msg = ExecuteMsg::Unbond {
        tokens: coin(5_000, "invalid"),
    };
    let info = mock_info(USER1, &[]);
    let err = execute(&mut state, &env, &info, msg).unwrap_err();

    assert_eq!(ContractError::InvalidDenom {}, err);
}
