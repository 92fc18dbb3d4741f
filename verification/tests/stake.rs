use poe_core::error::ContractError;
use poe_core::stake::claim::Claim;
use poe_core::stake::contract::{
    execute, instantiate, list_members, list_members_by_points, query, query_member, query_staked,
    query_total_points,
};
use poe_core::stake::msg::{
    ExecuteMsg, InstantiateMsg, MemberListResponse, QueryMsg, QueryResponse, TotalPointsResponse,
    UnbondingPeriodResponse,
};
use poe_core::stake::state::{Config, Stake};
use poe_core::time::{Duration, Expiration};
use poe_core::types::{BlockInfo, Coin, Env, Member, MemberDiff, MessageInfo, Msg, Timestamp};

const INIT_ADMIN: &str = "juan";
const USER1: &str = "user1";
const USER2: &str = "user2";
const USER3: &str = "user3";
const DENOM: &str = "stake";
const TOKENS_PER_POINT: u128 = 1_000;
const MIN_BOND: u128 = 5_000;
const UNBONDING_DURATION: u64 = 100;

fn mock_env() -> Env {
    Env {
        block: BlockInfo {
            height: 12_345,
            time: Timestamp::from_nanos(1_571_797_419_879_305_533),
        },
    }
}

fn mock_info(sender: &str, funds: &[Coin]) -> MessageInfo {
    MessageInfo {
        sender: sender.to_owned(),
        funds: funds.to_vec(),
    }
}

fn coin(amount: u128, denom: &str) -> Coin {
    Coin {
        denom: denom.to_owned(),
        amount,
    }
}

fn coins(amount: u128, denom: &str) -> Vec<Coin> {
    vec![coin(amount, denom)]
}

fn do_instantiate(
    tokens_per_point: u128,
    min_bond: u128,
    unbonding_period: u64,
    auto_return_limit: u64,
) -> Stake {
    let msg = InstantiateMsg {
        denom: "stake".to_owned(),
        tokens_per_point,
        min_bond,
        unbonding_period,
        admin: Some(INIT_ADMIN.into()),
        preauths_hooks: 1,
        preauths_slashing: 1,
        auto_return_limit,
    };
    let (state, _) = instantiate(&mock_env(), msg).unwrap();
    state
}

// Full stake is composed of `(liquid, illiquid (vesting))` amounts
fn bond(
    state: &mut Stake,
    user1_stake: (u128, u128),
    user2_stake: (u128, u128),
    user3_stake: (u128, u128),
    height_delta: u64,
) {
    let mut env = mock_env();
    env.block.height += height_delta;

    for (addr, stake) in &[
        (USER1, user1_stake),
        (USER2, user2_stake),
        (USER3, user3_stake),
    ] {
        if stake.0 != 0 || stake.1 != 0 {
            let vesting_tokens = if stake.1 != 0 {
                Some(coin(stake.1, DENOM))
            } else {
                None
            };
            let msg = ExecuteMsg::Bond { vesting_tokens };
            let info = mock_info(addr, &coins(stake.0, DENOM));
            execute(state, &env, &info, msg).unwrap();
        }
    }
}

// Helper for staking only liquid assets
fn bond_liquid(state: &mut Stake, user1: u128, user2: u128, user3: u128, height_delta: u64) {
    bond(state, (user1, 0), (user2, 0), (user3, 0), height_delta);
}

// Helper for staking only illiquid assets
fn bond_vesting(state: &mut Stake, user1: u128, user2: u128, user3: u128, height_delta: u64) {
    bond(state, (0, user1), (0, user2), (0, user3), height_delta);
}

fn unbond(
    state: &mut Stake,
    user1: u128,
    user2: u128,
    user3: u128,
    height_delta: u64,
    time_delta: u64,
) {
    let mut env = mock_env();
    env.block.height += height_delta;
    env.block.time = env.block.time.plus_seconds(time_delta);

    for (addr, stake) in &[(USER1, user1), (USER2, user2), (USER3, user3)] {
        if *stake != 0 {
            let msg = ExecuteMsg::Unbond {
                tokens: coin(*stake, DENOM),
            };
            let info = mock_info(addr, &[]);
            execute(state, &env, &info, msg).unwrap();
        }
    }
}

// this tests the member queries of liquid amounts
fn assert_stake_liquid(state: &Stake, user1: u128, user2: u128, user3: u128) {
    let stake1 = query_staked(state, USER1.into());
    assert_eq!(stake1.liquid, coin(user1, DENOM));

    let stake2 = query_staked(state, USER2.into());
    assert_eq!(stake2.liquid, coin(user2, DENOM));

    let stake3 = query_staked(state, USER3.into());
    assert_eq!(stake3.liquid, coin(user3, DENOM));
}

// this tests the member queries of illiquid amounts
fn assert_stake_vesting(state: &Stake, user1: u128, user2: u128, user3: u128) {
    let stake1 = query_staked(state, USER1.into());
    assert_eq!(stake1.vesting, coin(user1, DENOM));

    let stake2 = query_staked(state, USER2.into());
    assert_eq!(stake2.vesting, coin(user2, DENOM));

    let stake3 = query_staked(state, USER3.into());
    assert_eq!(stake3.vesting, coin(user3, DENOM));
}

fn default_instantiate() -> Stake {
    do_instantiate(TOKENS_PER_POINT, MIN_BOND, UNBONDING_DURATION, 0)
}

fn member(addr: &str, points: u64) -> Member {
    Member {
        addr: addr.into(),
        points,
        start_height: None,
    }
}

fn get_member(state: &Stake, addr: String, at_height: Option<u64>) -> Option<u64> {
    match query(state, &mock_env(), QueryMsg::Member { addr, at_height }) {
        QueryResponse::Member(res) => res.points,
        other => panic!("unexpected answer: {:?}", other),
    }
}

// this tests the member queries
fn assert_users(
    state: &Stake,
    user1_points: Option<u64>,
    user2_points: Option<u64>,
    user3_points: Option<u64>,
    height: Option<u64>,
) {
    let member1 = get_member(state, USER1.into(), height);
    assert_eq!(member1, user1_points);

    let member2 = get_member(state, USER2.into(), height);
    assert_eq!(member2, user2_points);

    let member3 = get_member(state, USER3.into(), height);
    assert_eq!(member3, user3_points);

    // this is only valid if we are not doing a historical query
    if height.is_none() {
        // compute expected metrics
        let points = vec![user1_points, user2_points, user3_points];
        let sum: u64 = points.iter().map(|x| x.unwrap_or_default()).sum();
        let count = points.iter().filter(|x| x.is_some()).count();

        let msg = QueryMsg::ListMembers {
            start_after: None,
            limit: None,
        };
        let members: MemberListResponse = match query(state, &mock_env(), msg) {
            QueryResponse::MemberList(l) => l,
            other => panic!("unexpected answer: {:?}", other),
        };
        assert_eq!(count, members.members.len());

        let total: TotalPointsResponse = match query(state, &mock_env(), QueryMsg::TotalPoints) {
            QueryResponse::TotalPoints(t) => t,
            other => panic!("unexpected answer: {:?}", other),
        };
        assert_eq!(sum, total.points); // 17 - 11 + 15 = 21
    }
}

fn get_claims(
    state: &Stake,
    addr: &str,
    limit: Option<u32>,
    start_after: Option<Expiration>,
) -> Vec<Claim> {
    state.claims.query_claims(addr.to_owned(), limit, start_after)
}

fn hook_msg(contract: &str, diff: &MemberDiff) -> Msg {
    Msg::MemberChangedHook {
        contract: contract.to_owned(),
        diffs: vec![diff.clone()],
    }
}

#[test]
fn contract_proper_instantiation() {
    let state = default_instantiate();

    // it worked, let's query the state
    assert_eq!(Some(INIT_ADMIN.to_owned()), state.admin.query_admin());

    let res = query_total_points(&state);
    assert_eq!(0, res.points);

    let res = query(&state, &mock_env(), QueryMsg::Configuration);
    assert_eq!(
        res,
        QueryResponse::Configuration(Config {
            denom: "stake".to_owned(),
            tokens_per_point: TOKENS_PER_POINT,
            min_bond: MIN_BOND,
            unbonding_period: Duration::new(UNBONDING_DURATION),
            auto_return_limit: 0,
        })
    );

    // query the admin's staked amount (just to confirm the query works)
    let res = query_staked(&state, INIT_ADMIN.into());
    assert_eq!(coin(0, "stake"), res.liquid);
    assert_eq!(coin(0, "stake"), res.vesting);
}

#[test]
fn unbonding_period_query_works() {
    let state = default_instantiate();

    let res = query(&state, &mock_env(), QueryMsg::UnbondingPeriod);
    assert_eq!(
        res,
        QueryResponse::UnbondingPeriod(UnbondingPeriodResponse {
            unbonding_period: Duration::new(UNBONDING_DURATION)
        })
    );
}

#[test]
fn bond_stake_liquid_adds_membership() {
    let mut state = default_instantiate();
    let height = mock_env().block.height;

    // Assert the points at the start
    assert_users(&state, None, None, None, None);

    // ensure it rounds down, and respects cut-off
    bond_liquid(&mut state, 12_000, 7_500, 4_000, 1);

    // Assert updated points
    assert_stake_liquid(&state, 12_000, 7_500, 4_000);
    assert_users(&state, Some(12), Some(7), None, None);

    // add some more, ensure the sum is properly respected (7.5 + 7.6 = 15 not 14)
    bond_liquid(&mut state, 0, 7_600, 1_200, 2);

    // Assert updated points
    assert_stake_liquid(&state, 12_000, 15_100, 5_200);
    assert_users(&state, Some(12), Some(15), Some(5), None);

    // check historical queries all work
    assert_users(&state, None, None, None, Some(height + 1)); // before first stake
    assert_users(&state, Some(12), Some(7), None, Some(height + 2)); // after first stake
    assert_users(&state, Some(12), Some(15), Some(5), Some(height + 3));
    // after second stake
}

#[test]
fn bond_stake_vesting_adds_membership() {
    let mut state = default_instantiate();
    let height = mock_env().block.height;

    // Assert the points at the start
    assert_users(&state, None, None, None, None);

    // ensure it rounds down, and respects cut-off
    bond_vesting(&mut state, 12_000, 7_500, 4_000, 1);

    // Assert updated points
    assert_stake_vesting(&state, 12_000, 7_500, 4_000);
    assert_users(&state, Some(12), Some(7), None, None);

    // add some more, ensure the sum is properly respected (7.5 + 7.6 = 15 not 14)
    bond_vesting(&mut state, 0, 7_600, 1_200, 2);

    // Assert updated points
    assert_stake_vesting(&state, 12_000, 15_100, 5_200);
    assert_users(&state, Some(12), Some(15), Some(5), None);

    // check historical queries all work
    assert_users(&state, None, None, None, Some(height + 1)); // before first stake
    assert_users(&state, Some(12), Some(7), None, Some(height + 2)); // after first stake
    assert_users(&state, Some(12), Some(15), Some(5), Some(height + 3));
    // after second stake
}

#[test]
fn bond_mixed_stake_adds_membership() {
    let mut state = default_instantiate();
    let height = mock_env().block.height;

    // Assert the points at the start
    assert_users(&state, None, None, None, None);

    // ensure it rounds down, and respects cut-off
    bond_liquid(&mut state, 12_000, 7_500, 4_000, 1);

    // Assert updated points
    assert_stake_liquid(&state, 12_000, 7_500, 4_000);
    assert_users(&state, Some(12), Some(7), None, None);

    // add some more, ensure the sum is properly respected (7.5 + 7.6 = 15 not 14)
    bond_vesting(&mut state, 0, 7_600, 1_200, 2);

    // Assert updated points
    assert_stake_vesting(&state, 0, 7_600, 1_200);
    assert_users(&state, Some(12), Some(15), Some(5), None);

    // check historical queries all work
    assert_users(&state, None, None, None, Some(height + 1)); // before first stake
    assert_users(&state, Some(12), Some(7), None, Some(height + 2)); // after first stake
    assert_users(&state, Some(12), Some(15), Some(5), Some(height + 3));
    // after second stake
}

#[test]
fn contract_try_member_queries() {
    let mut state = default_instantiate();

    bond(&mut state, (12_000, 0), (7_400, 100), (0, 4_000), 1);

    let member1 = query_member(&state, &USER1.into(), None);
    assert_eq!(member1.points, Some(12));

    let member2 = query_member(&state, &USER2.into(), None);
    assert_eq!(member2.points, Some(7));

    let member3 = query_member(&state, &USER3.into(), None);
    assert_eq!(member3.points, None);

    let members = list_members(&state, None, None).members;
    assert_eq!(members.len(), 2);
    // Assert the set is proper
    assert_eq!(members, vec![member(USER1, 12), member(USER2, 7)]);

    // Test pagination / limits
    let members = list_members(&state, None, Some(1)).members;
    assert_eq!(members.len(), 1);
    // Assert the set is proper
    assert_eq!(members, vec![member(USER1, 12)]);

    // Next page
    let start_after = Some(members[0].addr.clone());
    let members = list_members(&state, start_after, Some(1)).members;
    assert_eq!(members.len(), 1);
    // Assert the set is proper
    assert_eq!(members, vec![member(USER2, 7)]);

    // Assert there's no more
    let start_after = Some(members[0].addr.clone());
    let members = list_members(&state, start_after, Some(1)).members;
    assert_eq!(members.len(), 0);
}

#[test]
fn contract_try_list_members_by_points() {
    let mut state = default_instantiate();

    bond(&mut state, (10_000, 1_000), (6_500, 0), (0, 5_000), 1);

    let members = list_members_by_points(&state, None, None).members;
    assert_eq!(members.len(), 3);
    // Assert the set is sorted by (descending) points
    assert_eq!(
        members,
        vec![member(USER1, 11), member(USER2, 6), member(USER3, 5)]
    );

    // Test pagination / limits
    let members = list_members_by_points(&state, None, Some(1)).members;
    assert_eq!(members.len(), 1);
    // Assert the set is proper
    assert_eq!(members, vec![member(USER1, 11)]);

    // Next page
    let last = members.last().unwrap();
    let start_after = Some(last.clone());
    let members = list_members_by_points(&state, start_after, None).members;
    assert_eq!(members.len(), 2);
    // Assert the set is proper
    assert_eq!(members, vec![member(USER2, 6), member(USER3, 5)]);

    // Assert there's no more
    let last = members.last().unwrap();
    let start_after = Some(last.clone());
    let members = list_members_by_points(&state, start_after, Some(1)).members;
    assert_eq!(members.len(), 0);
}

#[test]
fn unbond_validations() {
    let mut state = default_instantiate();

    // Zero amount unbonds are rejected
    let msg = ExecuteMsg::Unbond {
        tokens: coin(0, DENOM),
    };
    let env = mock_env();
    let info = mock_info(USER1, &[]);
    let err = execute(&mut state, &env, &info, msg).unwrap_err();
    assert_eq!(ContractError::ZeroAmount {}, err);

    // Invalid denom unbonds are rejected
    let msg = ExecuteMsg::Unbond {
        tokens: coin(1234, "INV"),
    };
    let env = mock_env();
    let info = mock_info(USER1, &[]);
    let err = execute(&mut state, &env, &info, msg).unwrap_err();
    assert_eq!(ContractError::InvalidDenom {}, err);
}

#[test]
fn unbond_stake_update_membership() {
    let mut state = default_instantiate();
    let height = mock_env().block.height;

    // ensure it rounds down, and respects cut-off
    bond(&mut state, (0, 12_000), (500, 7_000), (3_000, 3_000), 1);
    assert_users(&state, Some(12), Some(7), Some(6), None);

    unbond(&mut state, 4_500, 2_600, 1_000, 2, 0);

    // Assert updated points
    assert_stake_liquid(&state, 0, 0, 2000);
    assert_stake_vesting(&state, 7_500, 4_900, 3000);
    assert_users(&state, Some(7), None, Some(5), None);

    // Adding a little more returns points
    bond(&mut state, (500, 100), (100, 0), (0, 2_222), 3);

    // Assert updated points
    assert_stake_liquid(&state, 500, 100, 2000);
    assert_stake_vesting(&state, 7_600, 4_900, 5_222);
    assert_users(&state, Some(8), Some(5), Some(7), None);

    // check historical queries all work
    assert_users(&state, None, None, None, Some(height + 1)); // before first stake
    assert_users(&state, Some(12), Some(7), Some(6), Some(height + 2)); // after first bond
    assert_users(&state, Some(7), None, Some(5), Some(height + 3)); // after first unbond
    assert_users(&state, Some(8), Some(5), Some(7), Some(height + 4)); // after second bond

    // error if try to unbond more than stake (USER2 has 5000 staked)
    let msg = ExecuteMsg::Unbond {
        tokens: coin(5100, DENOM),
    };
    let mut env = mock_env();
    env.block.height += 5;
    let info = mock_info(USER2, &[]);
    let err = execute(&mut state, &env, &info, msg).unwrap_err();
    assert_eq!(
        err,
        ContractError::Overflow {
            minuend: 4900,
            subtrahend: 5000,
        }
    );
}

#[test]
fn contract_raw_queries_work() {
    // add will over-write and remove have no effect
    let mut state = default_instantiate();
    // Set values as (11, 6, None)
    bond(&mut state, (1_000, 10_000), (6_000, 0), (0, 0), 1);

    // get total as it is kept
    let total: u64 = state.members.total;
    assert_eq!(17, total);

    // get member votes as they are kept
    let member2 = state.members.current.get(&USER2.to_owned()).unwrap();
    assert_eq!(6, *member2);

    // and execute misses
    let member3 = state.members.current.get(&USER3.to_owned());
    assert_eq!(None, member3);
}

#[test]
fn unbond_claim_workflow() {
    let mut state = default_instantiate();

    // create some data
    bond(&mut state, (4_000, 7_500), (7_500, 0), (3_000, 1_000), 1);
    let height_delta = 2;
    // 4_000 (liquid) and 500 (vesting) will be claimed for USER1
    unbond(&mut state, 4_500, 2_600, 0, height_delta, 0);
    let mut env = mock_env();
    env.block.height += height_delta;

    // check the claims for each user
    let expires = Duration::new(UNBONDING_DURATION).after(&env.block);
    assert_eq!(
        get_claims(&state, USER1, None, None),
        vec![Claim::new(
            USER1.to_owned(),
            4_000,
            500,
            expires,
            env.block.height,
        )]
    );
    assert_eq!(
        get_claims(&state, USER2, None, None),
        vec![Claim::new(
            USER2.to_owned(),
            2_600,
            0,
            expires,
            env.block.height,
        )]
    );
    assert_eq!(get_claims(&state, USER3, None, None), vec![]);

    // do another unbond later on
    let mut env2 = mock_env();
    let height_delta = 22;
    env2.block.height += height_delta;
    let time_delta = 50;
    unbond(&mut state, 0, 1_345, 1_500, height_delta, time_delta);

    // with updated claims
    let expires2 = Duration::new(UNBONDING_DURATION + time_delta).after(&env2.block);
    assert_ne!(expires, expires2);
    assert_eq!(
        get_claims(&state, USER1, None, None),
        vec![Claim::new(
            USER1.to_owned(),
            4_000,
            500,
            expires,
            env.block.height,
        )]
    );
    assert_eq!(
        get_claims(&state, USER2, None, None),
        vec![
            Claim::new(USER2.to_owned(), 2_600, 0, expires, env.block.height),
            Claim::new(USER2.to_owned(), 1_345, 0, expires2, env2.block.height),
        ]
    );
    assert_eq!(
        get_claims(&state, USER3, None, None),
        vec![Claim::new(
            USER3.to_owned(),
            1_500,
            0,
            expires2,
            env2.block.height,
        )]
    );

    // nothing can be withdrawn yet
    let err = execute(&mut state, &env, &mock_info(USER1, &[]), ExecuteMsg::Claim).unwrap_err();
    assert_eq!(err, ContractError::NothingToClaim {});

    // now mature first section, withdraw that
    let mut env3 = mock_env();
    env3.block.time = env3.block.time.plus_seconds(UNBONDING_DURATION);
    // first one can now release
    let res = execute(&mut state, &env3, &mock_info(USER1, &[]), ExecuteMsg::Claim).unwrap();
    assert_eq!(
        res.messages,
        vec![
            Msg::Send {
                to_address: USER1.into(),
                amount: coin(4_000, DENOM),
            },
            Msg::Undelegate {
                funds: coin(500, DENOM),
                recipient: USER1.into(),
            }
        ]
    );

    // second releases partially
    let res = execute(&mut state, &env3, &mock_info(USER2, &[]), ExecuteMsg::Claim).unwrap();
    assert_eq!(
        res.messages,
        vec![Msg::Send {
            to_address: USER2.into(),
            amount: coin(2_600, DENOM),
        }]
    );

    // but the third one cannot release
    let err = execute(&mut state, &env3, &mock_info(USER3, &[]), ExecuteMsg::Claim).unwrap_err();
    assert_eq!(err, ContractError::NothingToClaim {});

    // claims updated properly
    assert_eq!(get_claims(&state, USER1, None, None), vec![]);
    assert_eq!(
        get_claims(&state, USER2, None, None),
        vec![Claim::new(
            USER2.to_owned(),
            1_345,
            0,
            expires2,
            env2.block.height,
        )]
    );
    assert_eq!(
        get_claims(&state, USER3, None, None),
        vec![Claim::new(
            USER3.to_owned(),
            1_500,
            0,
            expires2,
            env2.block.height,
        )]
    );

    // add another few claims for 2
    unbond(&mut state, 0, 600, 0, 30, 0);
    unbond(&mut state, 0, 1_005, 0, 50, 0);

    // ensure second can claim all tokens at once
    let mut env4 = mock_env();
    env4.block.time = env4
        .block
        .time
        .plus_seconds(UNBONDING_DURATION + time_delta);
    let res = execute(&mut state, &env4, &mock_info(USER2, &[]), ExecuteMsg::Claim).unwrap();
    assert_eq!(
        res.messages,
        vec![Msg::Send {
            to_address: USER2.into(),
            // 1_345 + 600 + 1_005
            amount: coin(2_950, DENOM),
        }]
    );
    assert_eq!(get_claims(&state, USER2, None, None), vec![]);
}

#[test]
fn contract_add_remove_hooks() {
    // add will over-write and remove have no effect
    let mut state = default_instantiate();

    let hooks = state.hooks.list_hooks();
    assert!(hooks.is_empty());

    let contract1 = String::from("hook1");
    let contract2 = String::from("hook2");

    let add_msg = ExecuteMsg::AddHook {
        addr: contract1.clone(),
    };

    // anyone can add the first one, until preauth is consume
    assert_eq!(1, state.preauth_hooks.get_auth());
    let user_info = mock_info(USER1, &[]);
    let _ = execute(&mut state, &mock_env(), &user_info, add_msg.clone()).unwrap();
    let hooks = state.hooks.list_hooks();
    assert_eq!(hooks, vec![contract1.clone()]);

    // non-admin cannot add hook without preauth
    assert_eq!(0, state.preauth_hooks.get_auth());
    let user_info = mock_info(USER1, &[]);
    let err = execute(&mut state, &mock_env(), &user_info, add_msg.clone()).unwrap_err();
    assert_eq!(err, ContractError::NoPreauth);

    // cannot remove a non-registered contract
    let admin_info = mock_info(INIT_ADMIN, &[]);
    let remove_msg = ExecuteMsg::RemoveHook {
        addr: contract2.clone(),
    };
    let err = execute(&mut state, &mock_env(), &admin_info, remove_msg).unwrap_err();
    assert_eq!(err, ContractError::HookNotRegistered);

    // admin can second contract, and it appears in the query
    let add_msg2 = ExecuteMsg::AddHook {
        addr: contract2.clone(),
    };
    execute(&mut state, &mock_env(), &admin_info, add_msg2).unwrap();
    let hooks = state.hooks.list_hooks();
    assert_eq!(hooks, vec![contract1.clone(), contract2.clone()]);

    // cannot re-add an existing contract
    let err = execute(&mut state, &mock_env(), &admin_info, add_msg).unwrap_err();
    assert_eq!(err, ContractError::HookAlreadyRegistered);

    // non-admin cannot remove
    let remove_msg = ExecuteMsg::RemoveHook { addr: contract1 };
    let err = execute(&mut state, &mock_env(), &user_info, remove_msg.clone()).unwrap_err();
    assert_eq!(
        err,
        ContractError::Unauthorized(
            "Hook address is not same as sender's and sender is not an admin".to_owned()
        )
    );

    // remove the first
    execute(&mut state, &mock_env(), &admin_info, remove_msg).unwrap();
    let hooks = state.hooks.list_hooks();
    assert_eq!(hooks, vec![contract2.clone()]);

    // contract can self-remove
    let contract_info = mock_info(&contract2, &[]);
    let remove_msg2 = ExecuteMsg::RemoveHook { addr: contract2 };
    execute(&mut state, &mock_env(), &contract_info, remove_msg2).unwrap();
    let hooks = state.hooks.list_hooks();
    assert_eq!(hooks, Vec::<String>::new());
}

#[test]
fn contract_hooks_fire() {
    let mut state = default_instantiate();

    let hooks = state.hooks.list_hooks();
    assert!(hooks.is_empty());

    let contract1 = String::from("hook1");
    let contract2 = String::from("hook2");

    // register 2 hooks
    let admin_info = mock_info(INIT_ADMIN, &[]);
    let add_msg = ExecuteMsg::AddHook {
        addr: contract1.clone(),
    };
    let add_msg2 = ExecuteMsg::AddHook {
        addr: contract2.clone(),
    };
    for msg in vec![add_msg, add_msg2] {
        let _ = execute(&mut state, &mock_env(), &admin_info, msg).unwrap();
    }

    // check firing on bond
    assert_users(&state, None, None, None, None);
    let info = mock_info(USER1, &coins(13_800, DENOM));
    let res = execute(
        &mut state,
        &mock_env(),
        &info,
        ExecuteMsg::Bond {
            vesting_tokens: None,
        },
    )
    .unwrap();
    assert_users(&state, Some(13), None, None, None);

    // ensure messages for each of the 2 hooks
    assert_eq!(res.messages.len(), 2);
    let diff = MemberDiff::new(USER1.to_owned(), None, Some(13));
    let msg1 = hook_msg(&contract1, &diff);
    let msg2 = hook_msg(&contract2, &diff);
    assert_eq!(res.messages, vec![msg1, msg2]);

    // check firing on unbond
    let msg = ExecuteMsg::Unbond {
        tokens: coin(7_300, DENOM),
    };
    let info = mock_info(USER1, &[]);
    let res = execute(&mut state, &mock_env(), &info, msg).unwrap();
    assert_users(&state, Some(6), None, None, None);

    // ensure messages for each of the 2 hooks
    assert_eq!(res.messages.len(), 2);
    let diff = MemberDiff::new(USER1.to_owned(), Some(13), Some(6));
    let msg1 = hook_msg(&contract1, &diff);
    let msg2 = hook_msg(&contract2, &diff);
    assert_eq!(res.messages, vec![msg1, msg2]);
}

#[test]
fn only_bond_valid_coins() {
    let mut state = default_instantiate();

    // cannot bond with 0 coins
    let info = mock_info(USER1, &[]);
    let err = execute(
        &mut state,
        &mock_env(),
        &info,
        ExecuteMsg::Bond {
            vesting_tokens: None,
        },
    )
    .unwrap_err();
    assert_eq!(err, ContractError::NoFunds {});

    // cannot bond with incorrect denom
    let info = mock_info(USER1, &[coin(500, "FOO")]);
    let err = execute(
        &mut state,
        &mock_env(),
        &info,
        ExecuteMsg::Bond {
            vesting_tokens: None,
        },
    )
    .unwrap_err();
    assert_eq!(err, ContractError::MissingDenom(DENOM.to_string()));

    // cannot bond with 2 coins (even if one is correct)
    let info = mock_info(USER1, &[coin(1234, DENOM), coin(5000, "BAR")]);
    let err = execute(
        &mut state,
        &mock_env(),
        &info,
        ExecuteMsg::Bond {
            vesting_tokens: None,
        },
    )
    .unwrap_err();
    assert_eq!(err, ContractError::ExtraDenoms(DENOM.to_string()));

    // can bond with just the proper denom
    // cannot bond with incorrect denom
    let info = mock_info(USER1, &[coin(500, DENOM)]);
    execute(
        &mut state,
        &mock_env(),
        &info,
        ExecuteMsg::Bond {
            vesting_tokens: None,
        },
    )
    .unwrap();
}

#[test]
fn ensure_bonding_edge_cases_liquid() {
    // use min_bond 0, tokens_per_points 100
    let mut state = do_instantiate(100, 0, 5, 0);

    // setting 50 tokens, gives us Some(0) points
    // even setting to 1 token
    bond_liquid(&mut state, 50, 1, 102, 1);
    assert_users(&state, Some(0), Some(0), Some(1), None);

    // reducing to 0 token makes us None even with min_bond 0
    unbond(&mut state, 49, 1, 102, 2, 0);
    assert_users(&state, Some(0), None, None, None);
}

#[test]
fn ensure_bonding_edge_cases_vesting() {
    // use min_bond 0, tokens_per_points 100
    let mut state = do_instantiate(100, 0, 5, 0);

    // setting 50 tokens, gives us Some(0) points
    // even setting to 1 token
    bond_vesting(&mut state, 50, 1, 102, 1);
    assert_users(&state, Some(0), Some(0), Some(1), None);

    // reducing to 0 token makes us None even with min_bond 0
    unbond(&mut state, 49, 1, 102, 2, 0);
    assert_users(&state, Some(0), None, None, None);
}

#[test]
fn ensure_bonding_edge_cases_mixed() {
    // use min_bond 0, tokens_per_points 100
    let mut state = do_instantiate(100, 0, 5, 0);

    // setting 25 liquid tokens, gives us Some(0) points
    // even setting to 1 token
    bond_liquid(&mut state, 25, 1, 102, 1);
    assert_users(&state, Some(0), Some(0), Some(1), None);

    // setting other 25 vesting tokens, still gives us Some(0) points
    // also setting to plus 1 token
    bond_vesting(&mut state, 25, 1, 102, 2);
    assert_users(&state, Some(0), Some(0), Some(2), None);

    // reducing to 0 token makes us None even with min_bond 0
    unbond(&mut state, 49, 2, 204, 3, 0);
    assert_users(&state, Some(0), None, None, None);
}

#[test]
fn paginated_claim_query() {
    let mut state = default_instantiate();

    // create some data
    let mut env = mock_env();
    let msg = ExecuteMsg::Bond {
        vesting_tokens: None,
    };
    let info = mock_info(USER1, &coins(500, DENOM));
    execute(&mut state, &env, &info, msg).unwrap();

    let info = mock_info(USER1, &[]);
    for _ in 0..10 {
        env.block.time = env.block.time.plus_seconds(10);
        let msg = ExecuteMsg::Unbond {
            tokens: coin(10, DENOM),
        };
        execute(&mut state, &env, &info, msg).unwrap();
    }

    // check is number of claims is properly limited
    let claims = get_claims(&state, USER1, Some(6), None);
    assert_eq!(claims.len(), 6);
    // check if rest is equal to remainder
    let next = get_claims(&state, USER1, None, Some(claims[5].release_at));
    assert_eq!(next.len(), 4);

    // check if joining and sorting both vectors equal number from start
    let mut all_claims = get_claims(&state, USER1, None, None);
    all_claims.sort_by_key(|claim| claim.addr.clone());

    let mut concatenated = [claims, next].concat();
    concatenated.sort_by_key(|claim| claim.addr.clone());
    assert_eq!(concatenated, all_claims);
}
