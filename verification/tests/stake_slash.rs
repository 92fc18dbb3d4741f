use poe_core::decimal::Decimal;
use poe_core::error::ContractError;
use poe_core::stake::claim::Claim;
use poe_core::stake::contract::{execute, instantiate, query, query_staked};
use poe_core::stake::msg::{ExecuteMsg, InstantiateMsg, QueryMsg, QueryResponse};
use poe_core::stake::state::Stake;
use poe_core::time::Duration;
use poe_core::types::{BlockInfo, Coin, Env, MessageInfo, Msg, Response, Timestamp};

const INIT_ADMIN: &str = "juan";
const USER1: &str = "user1";
const USER2: &str = "user2";
const USER3: &str = "user3";
const DENOM: &str = "stake";
const TOKENS_PER_POINT: u128 = 1_000;
const MIN_BOND: u128 = 5_000;
const UNBONDING_DURATION: u64 = 100;

fn mock_env() -> Env {
    Env {
        block: BlockInfo {
            height: 12_345,
            time: Timestamp::from_nanos(1_571_797_419_879_305_533),
        },
    }
}

fn mock_info(sender: &str, funds: &[Coin]) -> MessageInfo {
    MessageInfo {
        sender: sender.to_owned(),
        funds: funds.to_vec(),
    }
}

fn coin(amount: u128, denom: &str) -> Coin {
    Coin {
        denom: denom.to_owned(),
        amount,
    }
}

fn coins(amount: u128, denom: &str) -> Vec<Coin> {
    vec![coin(amount, denom)]
}

fn do_instantiate(
    tokens_per_point: u128,
    min_bond: u128,
    unbonding_period: u64,
    auto_return_limit: u64,
) -> Stake {
    let msg = InstantiateMsg {
        denom: "stake".to_owned(),
        tokens_per_point,
        min_bond,
        unbonding_period,
        admin: Some(INIT_ADMIN.into()),
        preauths_hooks: 1,
        preauths_slashing: 1,
        auto_return_limit,
    };
    let (state, _) = instantiate(&mock_env(), msg).unwrap();
    state
}

// Full stake is composed of `(liquid, illiquid (vesting))` amounts
fn bond(
    state: &mut Stake,
    user1_stake: (u128, u128),
    user2_stake: (u128, u128),
    user3_stake: (u128, u128),
    height_delta: u64,
) {
    let mut env = mock_env();
    env.block.height += height_delta;

    for (addr, stake) in &[
        (USER1, user1_stake),
        (USER2, user2_stake),
        (USER3, user3_stake),
    ] {
        if stake.0 != 0 || stake.1 != 0 {
            let vesting_tokens = if stake.1 != 0 {
                Some(coin(stake.1, DENOM))
            } else {
                None
            };
            let msg = ExecuteMsg::Bond { vesting_tokens };
            let info = mock_info(addr, &coins(stake.0, DENOM));
            execute(state, &env, &info, msg).unwrap();
        }
    }
}

// Helper for staking only liquid assets
fn bond_liquid(state: &mut Stake, user1: u128, user2: u128, user3: u128, height_delta: u64) {
    bond(state, (user1, 0), (user2, 0), (user3, 0), height_delta);
}

// Helper for staking only illiquid assets
fn bond_vesting(state: &mut Stake, user1: u128, user2: u128, user3: u128, height_delta: u64) {
    bond(state, (0, user1), (0, user2), (0, user3), height_delta);
}

fn unbond(
    state: &mut Stake,
    user1: u128,
    user2: u128,
    user3: u128,
    height_delta: u64,
    time_delta: u64,
) {
    let mut env = mock_env();
    env.block.height += height_delta;
    env.block.time = env.block.time.plus_seconds(time_delta);

    for (addr, stake) in &[(USER1, user1), (USER2, user2), (USER3, user3)] {
        if *stake != 0 {
            let msg = ExecuteMsg::Unbond {
                tokens: coin(*stake, DENOM),
            };
            let info = mock_info(addr, &[]);
            execute(state, &env, &info, msg).unwrap();
        }
    }
}

// this tests the member queries of liquid amounts
fn assert_stake_liquid(state: &Stake, user1: u128, user2: u128, user3: u128) {
    let stake1 = query_staked(state, USER1.into());
    assert_eq!(stake1.liquid, coin(user1, DENOM));

    let stake2 = query_staked(state, USER2.into());
    assert_eq!(stake2.liquid, coin(user2, DENOM));

    let stake3 = query_staked(state, USER3.into());
    assert_eq!(stake3.liquid, coin(user3, DENOM));
}

// this tests the member queries of illiquid amounts
fn assert_stake_vesting(state: &Stake, user1: u128, user2: u128, user3: u128) {
    let stake1 = query_staked(state, USER1.into());
    assert_eq!(stake1.vesting, coin(user1, DENOM));

    let stake2 = query_staked(state, USER2.into());
    assert_eq!(stake2.vesting, coin(user2, DENOM));

    let stake3 = query_staked(state, USER3.into());
    assert_eq!(stake3.vesting, coin(user3, DENOM));
}

fn default_instantiate() -> Stake {
    do_instantiate(TOKENS_PER_POINT, MIN_BOND, UNBONDING_DURATION, 0)
}

fn get_member(state: &Stake, addr: String, at_height: Option<u64>) -> Option<u64> {
    match query(state, &mock_env(), QueryMsg::Member { addr, at_height }) {
        QueryResponse::Member(res) => res.points,
        other => panic!("unexpected answer: {:?}", other),
    }
}

fn assert_users(
    state: &Stake,
    user1_points: Option<u64>,
    user2_points: Option<u64>,
    user3_points: Option<u64>,
) {
    assert_eq!(get_member(state, USER1.into(), None), user1_points);
    assert_eq!(get_member(state, USER2.into(), None), user2_points);
    assert_eq!(get_member(state, USER3.into(), None), user3_points);

    let points = vec![user1_points, user2_points, user3_points];
    let sum: u64 = points.iter().map(|x| x.unwrap_or_default()).sum();
    let count = points.iter().filter(|x| x.is_some()).count();
    let msg = QueryMsg::ListMembers {
        start_after: None,
        limit: None,
    };
    match query(state, &mock_env(), msg) {
        QueryResponse::MemberList(l) => assert_eq!(count, l.members.len()),
        other => panic!("unexpected answer: {:?}", other),
    }
    match query(state, &mock_env(), QueryMsg::TotalPoints) {
        QueryResponse::TotalPoints(t) => assert_eq!(sum, t.points),
        other => panic!("unexpected answer: {:?}", other),
    }
}

fn query_is_slasher(state: &Stake, env: &Env, addr: String) -> bool {
    match query(state, env, QueryMsg::IsSlasher { addr }) {
        QueryResponse::IsSlasher(b) => b,
        other => panic!("unexpected answer: {:?}", other),
    }
}

fn query_list_slashers(state: &Stake, env: &Env) -> Vec<String> {
    match query(state, env, QueryMsg::ListSlashers) {
        QueryResponse::Slashers(l) => l,
        other => panic!("unexpected answer: {:?}", other),
    }
}

fn add_slasher(state: &mut Stake) -> String {
    let slasher = String::from("slasher");
    let add_msg = ExecuteMsg::AddSlasher {
        addr: slasher.clone(),
    };
    let user_info = mock_info(USER1, &[]);
    execute(state, &mock_env(), &user_info, add_msg).unwrap();

    slasher
}

fn remove_slasher(state: &mut Stake, slasher: &str) {
    let add_msg = ExecuteMsg::RemoveSlasher {
        addr: slasher.to_string(),
    };
    let user_info = mock_info(INIT_ADMIN, &[]);
    execute(state, &mock_env(), &user_info, add_msg).unwrap();
}

fn slash(
    state: &mut Stake,
    slasher: &str,
    addr: &str,
    portion: Decimal,
) -> Result<Response, ContractError> {
    let msg = ExecuteMsg::Slash {
        addr: addr.to_string(),
        portion,
    };
    let slasher_info = mock_info(slasher, &[]);

    execute(state, &mock_env(), &slasher_info, msg)
}

fn assert_burned(res: Response, expected_liquid: &[Coin], expected_vesting: &[Coin]) {
    // Args checks for robustness
    assert!(expected_liquid.len() <= 1);
    assert!(expected_vesting.len() <= 1);

    // Find all instances of Burn in the response and extract the burned amounts
    let burned_amounts: Vec<_> = res
        .messages
        .iter()
        .filter_map(|sub_msg| match sub_msg {
            Msg::Burn { amount } => Some(amount),
            _ => None,
        })
        .collect();

    assert!(
        burned_amounts.len() == 1 || burned_amounts.len() == 2,
        "Expected exactly 1 or 2 Burn message, got {}",
        burned_amounts.len()
    );

    let mut index = 0;
    if !expected_liquid.is_empty() {
        assert_eq!(
            burned_amounts[index], &expected_liquid[0],
            "Expected to burn {:?} liquid, burned {:?}",
            expected_liquid[0], burned_amounts[index]
        );
        index += 1;
    }
    if !expected_vesting.is_empty() {
        assert_eq!(
            burned_amounts[index], &expected_vesting[0],
            "Expected to burn {:?} vesting, burned {:?}",
            expected_vesting[0], burned_amounts[index]
        );
    }
}

#[test]
fn add_remove_slashers() {
    let mut state = default_instantiate();
    let env = mock_env();

    let slashers = query_list_slashers(&state, &env);
    assert!(slashers.is_empty());

    let contract1 = String::from("slasher1");
    let contract2 = String::from("slasher2");

    let add_msg = ExecuteMsg::AddSlasher {
        addr: contract1.clone(),
    };

    // anyone can add the first one, until preauth is consumed
    assert_eq!(1, state.preauth_slashing.get_auth());
    let user_info = mock_info(USER1, &[]);
    let _ = execute(&mut state, &mock_env(), &user_info, add_msg.clone()).unwrap();
    let slashers = query_list_slashers(&state, &env);
    assert_eq!(slashers, vec![contract1.clone()]);

    // non-admin cannot add slasher without preauth
    assert_eq!(0, state.preauth_slashing.get_auth());
    let user_info = mock_info(USER1, &[]);
    let err = execute(&mut state, &mock_env(), &user_info, add_msg.clone()).unwrap_err();
    assert_eq!(err, ContractError::NoPreauth);

    // cannot remove a non-registered slasher
    let admin_info = mock_info(INIT_ADMIN, &[]);
    let remove_msg = ExecuteMsg::RemoveSlasher {
        addr: contract2.clone(),
    };
    let err = execute(&mut state, &mock_env(), &admin_info, remove_msg).unwrap_err();
    assert_eq!(err, ContractError::SlasherNotRegistered(contract2.clone()));

    // admin can add a second slasher, and it appears in the query
    let add_msg2 = ExecuteMsg::AddSlasher {
        addr: contract2.clone(),
    };
    execute(&mut state, &mock_env(), &admin_info, add_msg2).unwrap();
    let slashers = query_list_slashers(&state, &env);
    assert_eq!(slashers, vec![contract1.clone(), contract2.clone()]);

    // cannot re-add an existing contract
    let err = execute(&mut state, &mock_env(), &admin_info, add_msg).unwrap_err();
    assert_eq!(
        err,
        ContractError::SlasherAlreadyRegistered(contract1.clone())
    );

    // non-admin cannot remove
    let remove_msg = ExecuteMsg::RemoveSlasher { addr: contract1 };
    let err = execute(&mut state, &mock_env(), &user_info, remove_msg.clone()).unwrap_err();
    assert_eq!(
        err,
        ContractError::Unauthorized(
            "Only slasher might remove himself and sender is not an admin".to_owned()
        )
    );

    // remove the first
    execute(&mut state, &mock_env(), &admin_info, remove_msg).unwrap();
    let slashers = query_list_slashers(&state, &env);
    assert_eq!(slashers, vec![contract2.clone()]);

    // contract can self-remove
    let contract_info = mock_info(&contract2, &[]);
    let remove_msg2 = ExecuteMsg::RemoveSlasher { addr: contract2 };
    execute(&mut state, &mock_env(), &contract_info, remove_msg2).unwrap();
    let slashers = query_list_slashers(&state, &env);
    assert_eq!(slashers, Vec::<String>::new());
}

#[test]
fn slashing_nonexisting_member() {
    let mut state = default_instantiate();

    // confirm address doesn't return true on slasher query
    assert!(!query_is_slasher(&state, &mock_env(), "slasher".to_owned()));

    let slasher = add_slasher(&mut state);
    assert!(query_is_slasher(&state, &mock_env(), slasher.clone()));

    bond_liquid(&mut state, 12_000, 7_500, 4_000, 1);
    assert_stake_liquid(&state, 12_000, 7_500, 4_000);

    bond_vesting(&mut state, 1_200, 750, 8_000, 2);
    assert_stake_vesting(&state, 1_200, 750, 8_000);

    // Trying to slash nonexisting user will result in no-op
    let res = slash(&mut state, &slasher, "nonexisting", Decimal::percent(20)).unwrap();
    assert_eq!(res, Response::new());
}

#[test]
fn slashing_bonded_liquid_tokens_works() {
    let mut state = default_instantiate();
    let cfg = state.config.clone();
    let slasher = add_slasher(&mut state);

    bond_liquid(&mut state, 12_000, 7_500, 4_000, 1);
    assert_stake_liquid(&state, 12_000, 7_500, 4_000);

    // The slasher we added can slash
    let res1 = slash(&mut state, &slasher, USER1, Decimal::percent(20)).unwrap();
    let res2 = slash(&mut state, &slasher, USER3, Decimal::percent(50)).unwrap();
    assert_stake_liquid(&state, 9_600, 7_500, 2_000);

    // Tokens are burned
    assert_burned(res1, &coins(2_400, &cfg.denom), &[]);
    assert_burned(res2, &coins(2_000, &cfg.denom), &[]);
}

#[test]
fn slashing_bonded_vesting_tokens_works() {
    let mut state = default_instantiate();
    let cfg = state.config.clone();
    let slasher = add_slasher(&mut state);

    bond_vesting(&mut state, 12_000, 7_500, 4_000, 1);
    assert_stake_vesting(&state, 12_000, 7_500, 4_000);

    // The slasher we added can slash
    let res1 = slash(&mut state, &slasher, USER1, Decimal::percent(20)).unwrap();
    let res2 = slash(&mut state, &slasher, USER3, Decimal::percent(50)).unwrap();
    assert_stake_vesting(&state, 9_600, 7_500, 2_000);

    // Tokens are burned
    assert_burned(res1, &[], &coins(2_400, &cfg.denom));
    assert_burned(res2, &[], &coins(2_000, &cfg.denom));
}

#[test]
fn slashing_bonded_mixed_tokens_works() {
    let mut state = default_instantiate();
    let cfg = state.config.clone();
    let slasher = add_slasher(&mut state);

    bond_liquid(&mut state, 12_000, 1_500, 0, 1);
    assert_stake_liquid(&state, 12_000, 1_500, 0);
    bond_vesting(&mut state, 0, 6_000, 4_000, 1);
    assert_stake_vesting(&state, 0, 6_000, 4_000);

    // The slasher we added can slash
    let res1 = slash(&mut state, &slasher, USER1, Decimal::percent(20)).unwrap();
    let res2 = slash(&mut state, &slasher, USER3, Decimal::percent(50)).unwrap();
    let res3 = slash(&mut state, &slasher, USER2, Decimal::percent(10)).unwrap();
    assert_stake_liquid(&state, 9_600, 1_350, 0);
    assert_stake_vesting(&state, 0, 5_400, 2_000);

    // Tokens are burned
    assert_burned(res1, &coins(2_400, &cfg.denom), &[]);
    assert_burned(res2, &[], &coins(2_000, &cfg.denom));
    assert_burned(res3, &coins(150, &cfg.denom), &coins(600, &cfg.denom));
}

#[test]
fn slashing_stake_update_membership() {
    let mut state = default_instantiate();
    let slasher = add_slasher(&mut state);

    // ensure it rounds down, and respects cut-off
    bond(&mut state, (0, 12_000), (7_000, 0), (3_000, 4_000), 1);
    assert_users(&state, Some(12), Some(7), Some(7));

    slash(&mut state, &slasher, USER1, Decimal::percent(50)).unwrap();
    slash(&mut state, &slasher, USER2, Decimal::percent(10)).unwrap();
    slash(&mut state, &slasher, USER3, Decimal::percent(20)).unwrap();

    // Assert updated points
    assert_stake_liquid(&state, 0, 6_300, 2_400);
    assert_stake_vesting(&state, 6_000, 0, 3_200);
    assert_users(&state, Some(6), Some(6), Some(5));
}

#[test]
fn slashing_claims_works() {
    let mut state = default_instantiate();
    let cfg = state.config.clone();
    let slasher = add_slasher(&mut state);

    // create some data
    bond_liquid(&mut state, 12_000, 7_500, 4_000, 1);
    bond_vesting(&mut state, 1_000, 750, 40, 1);
    let height_delta = 2;
    unbond(&mut state, 13_000, 2_600, 0, height_delta, 0);
    let mut env = mock_env();
    env.block.height += height_delta;

    // check the claims for each user
    let expires = Duration::new(UNBONDING_DURATION).after(&env.block);
    assert_eq!(
        state.claims.query_claims(USER1.to_owned(), None, None),
        vec![Claim::new(
            USER1.to_owned(),
            12_000,
            1_000,
            expires,
            env.block.height,
        )]
    );

    let res = slash(&mut state, &slasher, USER1, Decimal::percent(20)).unwrap();

    assert_eq!(
        state.claims.query_claims(USER1.to_owned(), None, None),
        vec![Claim::new(
            USER1.to_owned(),
            9_600,
            800,
            expires,
            env.block.height,
        )]
    );
    assert_burned(res, &coins(2_400, &cfg.denom), &coins(200, &cfg.denom));
}

#[test]
fn random_user_cannot_slash() {
    let mut state = default_instantiate();
    let _slasher = add_slasher(&mut state);

    bond_liquid(&mut state, 12_000, 7_500, 4_000, 1);
    assert_stake_liquid(&state, 12_000, 7_500, 4_000);

    bond_vesting(&mut state, 1_200, 750, 8_000, 2);
    assert_stake_vesting(&state, 1_200, 750, 8_000);

    let res = slash(&mut state, USER2, USER1, Decimal::percent(20));
    assert_eq!(
        res,
        Err(ContractError::Unauthorized(
            "Sender is not on slashers list".to_owned()
        ))
    );
    assert_stake_liquid(&state, 12_000, 7_500, 4_000);
}

#[test]
fn admin_cannot_slash() {
    let mut state = default_instantiate();
    let _slasher = add_slasher(&mut state);

    bond_liquid(&mut state, 12_000, 7_500, 4_000, 1);
    assert_stake_liquid(&state, 12_000, 7_500, 4_000);

    bond_vesting(&mut state, 1_200, 750, 8_000, 2);
    assert_stake_vesting(&state, 1_200, 750, 8_000);

    let res = slash(&mut state, INIT_ADMIN, USER1, Decimal::percent(20));
    assert_eq!(
        res,
        Err(ContractError::Unauthorized(
            "Sender is not on slashers list".to_owned()
        ))
    );
    assert_stake_liquid(&state, 12_000, 7_500, 4_000);
}

#[test]
fn removed_slasher_cannot_slash() {
    let mut state = default_instantiate();

    // Add, then remove a slasher
    let slasher = add_slasher(&mut state);
    remove_slasher(&mut state, &slasher);

    bond_liquid(&mut state, 12_000, 7_500, 4_000, 1);
    assert_stake_liquid(&state, 12_000, 7_500, 4_000);

    bond_vesting(&mut state, 12_000, 7_500, 8_000, 2);
    assert_stake_vesting(&state, 12_000, 7_500, 8_000);

    let res = slash(&mut state, &slasher, USER1, Decimal::percent(20));
    assert_eq!(
        res,
        Err(ContractError::Unauthorized(
            "Sender is not on slashers list".to_owned()
        ))
    );
    assert_stake_liquid(&state, 12_000, 7_500, 4_000);
}
