use poe_core::decimal::Decimal;
use poe_core::engagement::contract as engagement;
use poe_core::engagement::msg as engagement_msg;
use poe_core::engagement::state::Engagement;
use poe_core::error::ContractError;
use poe_core::stake::claim::Claim;
use poe_core::stake::contract as stake;
use poe_core::stake::msg as stake_msg;
use poe_core::stake::state::Stake;
use poe_core::time::{Duration, Expiration};
use poe_core::types::{
    Attribute, BlockInfo, Coin, Env, Member, MessageInfo, Msg, Privilege, Response, Timestamp,
};

const DAY: u64 = 24 * 60 * 60;

fn env_at(height: u64, seconds: u64) -> Env {
    Env {
        block: BlockInfo {
            height,
            time: Timestamp::from_seconds(seconds),
        },
    }
}

fn info(sender: &str) -> MessageInfo {
    MessageInfo {
        sender: sender.to_owned(),
        funds: vec![],
    }
}

fn info_with(sender: &str, amount: u128, denom: &str) -> MessageInfo {
    MessageInfo {
        sender: sender.to_owned(),
        funds: vec![coin(amount, denom)],
    }
}

fn coin(amount: u128, denom: &str) -> Coin {
    Coin {
        denom: denom.to_owned(),
        amount,
    }
}

fn member(addr: &str, points: u64) -> Member {
    Member {
        addr: addr.to_owned(),
        points,
        start_height: None,
    }
}

fn attr(key: &str, value: &str) -> Attribute {
    Attribute {
        key: key.to_owned(),
        value: value.to_owned(),
    }
}

fn engagement_of(members: Vec<Member>, halflife: Option<u64>) -> Engagement {
    let msg = engagement_msg::InstantiateMsg {
        admin: Some("admin".to_owned()),
        members,
        preauths_hooks: 0,
        preauths_slashing: 1,
        halflife: halflife.map(Duration::new),
        denom: "usdc".to_owned(),
    };
    engagement::instantiate(&env_at(1, 1_000), msg).unwrap().0
}

fn stake_of(limit: u64) -> Stake {
    let msg = stake_msg::InstantiateMsg {
        denom: "stake".to_owned(),
        tokens_per_point: 1000,
        min_bond: 5000,
        unbonding_period: 100,
        admin: Some("admin".to_owned()),
        preauths_hooks: 0,
        preauths_slashing: 1,
        auto_return_limit: limit,
    };
    stake::instantiate(&env_at(1, 1_000), msg).unwrap().0
}

fn points_of(state: &Engagement, addr: &str) -> Option<u64> {
    engagement::query_member(state, &addr.to_owned(), None).points
}

fn stake_points_of(state: &Stake, addr: &str) -> Option<u64> {
    stake::query_member(state, &addr.to_owned(), None).points
}

#[test]
fn engagement_reward_split() {
    let mut state = engagement_of(vec![member("A", 11), member("B", 6)], None);
    let env = env_at(2, 2_000);

    let res = engagement::execute_distribute_rewards(&mut state, &env, &info("anyone"), None, 170)
        .unwrap();
    assert_eq!(
        res.attributes,
        vec![
            attr("action", "distribute_rewards"),
            attr("sender", "anyone"),
            attr("denom", "usdc"),
            attr("amount", "170"),
        ]
    );
    assert_eq!(state.distribution.shares_per_point, (170u128 << 32) / 17);
    assert_eq!(state.distribution.shares_leftover, 0);
    assert_eq!(state.distribution.distributed_total, 170);
    assert_eq!(state.distribution.withdrawable_total, 170);

    let a = engagement::query_withdrawable_rewards(&state, &"A".to_owned());
    assert_eq!(a.rewards, coin(110, "usdc"));
    let b = engagement::query_withdrawable_rewards(&state, &"B".to_owned());
    assert_eq!(b.rewards, coin(60, "usdc"));

    let res = engagement::execute_withdraw_rewards(&mut state, &info("A"), None, None).unwrap();
    assert_eq!(
        res.messages,
        vec![Msg::Send {
            to_address: "A".to_owned(),
            amount: coin(110, "usdc"),
        }]
    );
    assert_eq!(
        res.attributes,
        vec![
            attr("action", "withdraw_rewards"),
            attr("sender", "A"),
            attr("owner", "A"),
            attr("receiver", "A"),
            attr("reward", "usdc"),
            attr("amount", "110"),
        ]
    );
    let res = engagement::execute_withdraw_rewards(&mut state, &info("B"), None, None).unwrap();
    assert_eq!(
        res.messages,
        vec![Msg::Send {
            to_address: "B".to_owned(),
            amount: coin(60, "usdc"),
        }]
    );
    assert_eq!(state.distribution.shares_leftover, 0);
    assert_eq!(state.distribution.withdrawable_total, 0);
    assert_eq!(state.distribution.distributed_total, 170);

    // nothing is left to withdraw: a silent success
    let res = engagement::execute_withdraw_rewards(&mut state, &info("A"), None, None).unwrap();
    assert_eq!(res, Response::new());
}

#[test]
fn engagement_halflife_steps() {
    let mut state = engagement_of(vec![member("A", 11), member("B", 6)], Some(180 * DAY));
    let expected = [(6, 3), (3, 2), (2, 1), (1, 1), (1, 1)];
    for (n, (a, b)) in expected.iter().enumerate() {
        let env = env_at(10 + n as u64, 1_000 + (n as u64 + 1) * 180 * DAY);
        engagement::end_block(&mut state, &env).unwrap();
        assert_eq!(points_of(&state, "A"), Some(*a));
        assert_eq!(points_of(&state, "B"), Some(*b));
        assert_eq!(engagement::query_total_points(&state).points, a + b);
    }
}

#[test]
fn stake_bond_unbond_claim() {
    let mut state = stake_of(0);
    let user = "user";

    let env = env_at(2, 2_000);
    let res = stake::execute_bond(&mut state, &env, &info_with(user, 12_000, "stake"), None).unwrap();
    assert_eq!(
        res.attributes,
        vec![
            attr("action", "bond"),
            attr("amount", "12000"),
            attr("sender", "user"),
        ]
    );
    assert_eq!(stake_points_of(&state, user), Some(12));

    let res = stake::execute_unbond(&mut state, &env, &info(user), 4_500, "stake".to_owned()).unwrap();
    assert_eq!(
        res.attributes,
        vec![
            attr("action", "unbond"),
            attr("amount", "4500"),
            attr("denom", "stake"),
            attr("sender", "user"),
            attr("completion_time", "2100000000000"),
        ]
    );
    assert_eq!(
        stake::query_staked(&state, user.to_owned()).liquid,
        coin(7_500, "stake")
    );
    assert_eq!(
        state.claims.query_claims(user.to_owned(), None, None),
        vec![Claim::new(
            user.to_owned(),
            4_500,
            0,
            Expiration::at_timestamp(Timestamp::from_seconds(2_100)),
            2
        )]
    );
    assert_eq!(stake_points_of(&state, user), Some(7));

    // a second before the release nothing can be claimed
    let early = env_at(3, 2_099);
    assert_eq!(
        stake::execute_claim(&mut state, &early, &info(user)).unwrap_err(),
        ContractError::NothingToClaim
    );

    let later = env_at(4, 2_100);
    let res = stake::execute_claim(&mut state, &later, &info(user)).unwrap();
    assert_eq!(
        res.messages,
        vec![Msg::Send {
            to_address: user.to_owned(),
            amount: coin(4_500, "stake"),
        }]
    );
    assert_eq!(
        res.attributes,
        vec![
            attr("action", "claim"),
            attr("sender", "user"),
            attr("liquid_tokens", "4500stake"),
        ]
    );
    assert_eq!(stake_points_of(&state, user), Some(7));
    assert_eq!(state.claims.query_claims(user.to_owned(), None, None), vec![]);
}

#[test]
fn stake_slash_across_claims() {
    let mut state = stake_of(0);
    let user = "user";
    let env = env_at(2, 2_000);
    stake::execute_add_slasher(&mut state, &info("admin"), "slasher".to_owned()).unwrap();
    stake::execute_bond(&mut state, &env, &info_with(user, 14_000, "stake"), None).unwrap();
    stake::execute_unbond(&mut state, &env, &info(user), 4_000, "stake".to_owned()).unwrap();
    assert_eq!(
        stake::query_staked(&state, user.to_owned()).liquid,
        coin(10_000, "stake")
    );

    let res = stake::execute_slash(
        &mut state,
        &env_at(3, 2_010),
        &info("slasher"),
        user.to_owned(),
        Decimal::percent(20),
    )
    .unwrap();
    assert_eq!(
        stake::query_staked(&state, user.to_owned()).liquid,
        coin(8_000, "stake")
    );
    let claims = state.claims.query_claims(user.to_owned(), None, None);
    assert_eq!(claims.len(), 1);
    assert_eq!(claims[0].amount, 3_200);
    assert_eq!(
        res.messages,
        vec![Msg::Burn {
            amount: coin(2_000 + 800, "stake")
        }]
    );
    assert_eq!(stake_points_of(&state, user), Some(8));
}

#[test]
fn stake_auto_release_batches() {
    let mut state = stake_of(2);
    stake::execute_bond(&mut state, &env_at(2, 2_000), &info_with("u1", 10_000, "stake"), None).unwrap();
    stake::execute_bond(&mut state, &env_at(2, 2_000), &info_with("u2", 10_000, "stake"), None).unwrap();
    stake::execute_unbond(&mut state, &env_at(3, 2_001), &info("u1"), 100, "stake".to_owned()).unwrap();
    stake::execute_unbond(&mut state, &env_at(3, 2_002), &info("u2"), 200, "stake".to_owned()).unwrap();
    stake::execute_unbond(&mut state, &env_at(3, 2_003), &info("u1"), 300, "stake".to_owned()).unwrap();
    stake::execute_unbond(&mut state, &env_at(3, 2_004), &info("u2"), 400, "stake".to_owned()).unwrap();

    // all four claims are mature, the oldest two are released
    let res = stake::end_block(&mut state, &env_at(4, 3_000)).unwrap();
    assert_eq!(
        res.messages,
        vec![
            Msg::Send {
                to_address: "u1".to_owned(),
                amount: coin(100, "stake"),
            },
            Msg::Send {
                to_address: "u2".to_owned(),
                amount: coin(200, "stake"),
            },
        ]
    );
    assert_eq!(state.claims.claims.len(), 2);

    // the other two at the end of the next block
    let res = stake::end_block(&mut state, &env_at(5, 3_005)).unwrap();
    assert_eq!(
        res.messages,
        vec![
            Msg::Send {
                to_address: "u1".to_owned(),
                amount: coin(300, "stake"),
            },
            Msg::Send {
                to_address: "u2".to_owned(),
                amount: coin(400, "stake"),
            },
        ]
    );
    assert!(state.claims.claims.is_empty());

    // and nothing after that
    let res = stake::end_block(&mut state, &env_at(6, 3_010)).unwrap();
    assert_eq!(res, Response::new());
}

#[test]
fn stake_release_by_limit_one_groups_nothing() {
    let mut state = stake_of(1);
    stake::execute_bond(&mut state, &env_at(2, 2_000), &info_with("u1", 10_000, "stake"), None).unwrap();
    stake::execute_unbond(&mut state, &env_at(3, 2_001), &info("u1"), 100, "stake".to_owned()).unwrap();
    stake::execute_unbond(&mut state, &env_at(3, 2_002), &info("u1"), 200, "stake".to_owned()).unwrap();
    let res = stake::end_block(&mut state, &env_at(4, 3_000)).unwrap();
    assert_eq!(
        res.messages,
        vec![Msg::Send {
            to_address: "u1".to_owned(),
            amount: coin(100, "stake"),
        }]
    );
    let res = stake::end_block(&mut state, &env_at(5, 3_000)).unwrap();
    assert_eq!(
        res.messages,
        vec![Msg::Send {
            to_address: "u1".to_owned(),
            amount: coin(200, "stake"),
        }]
    );
}

#[test]
fn claims_at_the_same_release_merge() {
    let mut state = stake_of(0);
    let env = env_at(2, 2_000);
    stake::execute_bond(
        &mut state,
        &env,
        &info_with("u1", 10_000, "stake"),
        Some(coin(500, "stake")),
    )
    .unwrap();
    stake::execute_unbond(&mut state, &env, &info("u1"), 100, "stake".to_owned()).unwrap();
    // later in the same second, in a later block
    stake::execute_unbond(&mut state, &env_at(7, 2_000), &info("u1"), 10_100, "stake".to_owned()).unwrap();
    assert_eq!(
        state.claims.query_claims("u1".to_owned(), None, None),
        vec![Claim::new(
            "u1".to_owned(),
            10_000,
            200,
            Expiration::at_timestamp(Timestamp::from_seconds(2_100)),
            2
        )]
    );
    assert_eq!(
        stake::query_staked(&state, "u1".to_owned()).vesting,
        coin(300, "stake")
    );
}

#[test]
fn bond_unbond_wait_claim_gives_everything_back() {
    let mut state = stake_of(0);
    let env = env_at(2, 2_000);
    let res = stake::execute_bond(
        &mut state,
        &env,
        &info_with("u1", 7_000, "stake"),
        Some(coin(3_000, "stake")),
    )
    .unwrap();
    assert_eq!(
        res.messages,
        vec![Msg::Delegate {
            funds: coin(3_000, "stake"),
            staker: "u1".to_owned(),
        }]
    );
    assert_eq!(
        res.attributes.last().unwrap(),
        &attr("vesting_amount", "3000")
    );
    stake::execute_unbond(&mut state, &env, &info("u1"), 10_000, "stake".to_owned()).unwrap();
    assert_eq!(stake_points_of(&state, "u1"), None);
    let res = stake::execute_claim(&mut state, &env_at(3, 2_100), &info("u1")).unwrap();
    assert_eq!(
        res.messages,
        vec![
            Msg::Send {
                to_address: "u1".to_owned(),
                amount: coin(7_000, "stake"),
            },
            Msg::Undelegate {
                funds: coin(3_000, "stake"),
                recipient: "u1".to_owned(),
            },
        ]
    );
    assert_eq!(
        res.attributes,
        vec![
            attr("action", "claim"),
            attr("sender", "u1"),
            attr("liquid_tokens", "7000stake"),
            attr("vesting_tokens", "3000stake"),
        ]
    );
    let staked = stake::query_staked(&state, "u1".to_owned());
    assert_eq!(staked.liquid, coin(0, "stake"));
    assert_eq!(staked.vesting, coin(0, "stake"));
}

#[test]
fn slash_by_nothing_by_all_and_by_too_much() {
    let mut state = stake_of(0);
    let env = env_at(2, 2_000);
    stake::execute_add_slasher(&mut state, &info("admin"), "slasher".to_owned()).unwrap();
    stake::execute_bond(&mut state, &env, &info_with("u1", 9_999, "stake"), None).unwrap();
    let before = state.clone();

    let res = stake::execute_slash(&mut state, &env, &info("slasher"), "u1".to_owned(), Decimal::zero())
        .unwrap();
    assert_eq!(res.messages, vec![]);
    assert_eq!(state.stake, before.stake);
    assert_eq!(state.members.current, before.members.current);
    assert_eq!(state.members.total, before.members.total);

    let too_much = Decimal::raw(1_000_000_000_000_000_001);
    assert_eq!(
        stake::execute_slash(&mut state, &env, &info("slasher"), "u1".to_owned(), too_much).unwrap_err(),
        ContractError::InvalidPortion
    );
    assert_eq!(state.stake, before.stake);

    let res = stake::execute_slash(&mut state, &env, &info("slasher"), "u1".to_owned(), Decimal::one())
        .unwrap();
    assert_eq!(
        res.messages,
        vec![Msg::Burn {
            amount: coin(9_999, "stake")
        }]
    );
    assert_eq!(
        stake::query_staked(&state, "u1".to_owned()).liquid,
        coin(0, "stake")
    );
    assert_eq!(stake_points_of(&state, "u1"), None);
    assert_eq!(stake::query_total_points(&state).points, 0);
}

#[test]
fn engagement_slash_takes_a_portion_of_the_points() {
    let mut state = engagement_of(vec![member("A", 11), member("B", 6)], None);
    let env = env_at(2, 2_000);
    engagement::execute_add_slasher(&mut state, &info("admin"), "slasher".to_owned()).unwrap();

    // 30% of 11 is 3.3: three points go
    let res = engagement::execute_slash(
        &mut state,
        &env,
        &info("slasher"),
        "A".to_owned(),
        Decimal::percent(30),
    )
    .unwrap();
    assert_eq!(
        res.attributes,
        vec![
            attr("action", "slash"),
            attr("addr", "A"),
            attr("sender", "slasher"),
        ]
    );
    assert_eq!(points_of(&state, "A"), Some(8));
    assert_eq!(engagement::query_total_points(&state).points, 14);

    engagement::execute_slash(&mut state, &env, &info("slasher"), "A".to_owned(), Decimal::zero()).unwrap();
    assert_eq!(points_of(&state, "A"), Some(8));

    let too_much = Decimal::raw(1_000_000_000_000_000_001);
    assert_eq!(
        engagement::execute_slash(&mut state, &env, &info("slasher"), "A".to_owned(), too_much).unwrap_err(),
        ContractError::InvalidPortion
    );

    engagement::execute_slash(&mut state, &env, &info("slasher"), "A".to_owned(), Decimal::one()).unwrap();
    assert_eq!(points_of(&state, "A"), Some(0));
    assert_eq!(engagement::query_total_points(&state).points, 6);

    assert_eq!(
        engagement::execute_slash(&mut state, &env, &info("A"), "B".to_owned(), Decimal::one()).unwrap_err(),
        ContractError::Unauthorized("Sender is not on slashers list".to_owned())
    );
}

#[test]
fn rewards_follow_changes_of_points() {
    let mut state = engagement_of(vec![member("A", 1), member("B", 3)], None);
    let env = env_at(2, 2_000);
    let admin = info("admin");
    engagement::execute_distribute_rewards(&mut state, &env, &admin, None, 400).unwrap();
    // A joins late with more points and C is new: neither gets a share of what was distributed
    engagement::execute_update_members(
        &mut state,
        &env,
        &admin,
        vec![member("A", 5), member("C", 2)],
        vec!["B".to_owned()],
    )
    .unwrap();
    let withdrawable = |state: &Engagement, who: &str| {
        engagement::query_withdrawable_rewards(state, &who.to_owned())
            .rewards
            .amount
    };
    assert_eq!(withdrawable(&state, "A"), 100);
    assert_eq!(withdrawable(&state, "B"), 300);
    assert_eq!(withdrawable(&state, "C"), 0);
    assert_eq!(withdrawable(&state, "nobody"), 0);

    // 70 more tokens for 7 points
    engagement::execute_distribute_rewards(&mut state, &env, &admin, None, 470).unwrap();
    assert_eq!(withdrawable(&state, "A"), 150);
    assert_eq!(withdrawable(&state, "B"), 300);
    assert_eq!(withdrawable(&state, "C"), 20);
    assert_eq!(state.distribution.distributed_total, 470);
    assert_eq!(
        engagement::query_distributed_rewards(&state).rewards,
        coin(470, "usdc")
    );
    assert_eq!(
        engagement::query_undistributed_rewards(&state, 500).rewards,
        coin(30, "usdc")
    );

    // what cannot be divided is carried over: 10 tokens for 7 points
    engagement::execute_distribute_rewards(&mut state, &env, &admin, None, 480).unwrap();
    assert_eq!(state.distribution.shares_leftover, ((10u128 << 32) % 7) as u64);
    assert_eq!(withdrawable(&state, "A"), 157);
    assert_eq!(withdrawable(&state, "C"), 22);
    let sum = withdrawable(&state, "A") + withdrawable(&state, "B") + withdrawable(&state, "C");
    assert!(sum <= state.distribution.withdrawable_total);
    assert!(state.distribution.withdrawable_total - sum < 7);
}

#[test]
fn distribution_needs_members_and_funds() {
    let mut state = engagement_of(vec![], None);
    let env = env_at(2, 2_000);
    assert_eq!(
        engagement::execute_distribute_rewards(&mut state, &env, &info("x"), None, 100).unwrap_err(),
        ContractError::NoMembersToDistributeTo
    );
    let mut state = engagement_of(vec![member("A", 1)], None);
    let res = engagement::execute_distribute_rewards(&mut state, &env, &info("x"), None, 0).unwrap();
    assert_eq!(res, Response::new());
    let res = engagement::execute_distribute_rewards(
        &mut state,
        &env,
        &info("x"),
        Some("named".to_owned()),
        5,
    )
    .unwrap();
    assert_eq!(res.attributes[1], attr("sender", "named"));
}

#[test]
fn delegated_withdrawal_and_back() {
    let mut state = engagement_of(vec![member("A", 1)], None);
    let env = env_at(2, 2_000);
    engagement::execute_distribute_rewards(&mut state, &env, &info("x"), None, 10).unwrap();
    assert_eq!(
        engagement::query_delegated(&state, "A".to_owned()).delegated,
        "A"
    );
    assert_eq!(
        engagement::query_delegated(&state, "unknown".to_owned()).delegated,
        "unknown"
    );
    let before = state.adjustments.clone();

    // B may not withdraw for A
    assert_eq!(
        engagement::execute_withdraw_rewards(&mut state, &info("B"), Some("A".to_owned()), None).unwrap_err(),
        ContractError::Unauthorized("Sender is neither owner or delegated".to_owned())
    );
    // nothing is on record for B itself
    assert_eq!(
        engagement::execute_withdraw_rewards(&mut state, &info("B"), None, None).unwrap_err(),
        ContractError::NotFound
    );

    let res = engagement::execute_delegate_withdrawal(&mut state, &info("A"), "B".to_owned()).unwrap();
    assert_eq!(
        res.attributes,
        vec![
            attr("action", "delegate_withdrawal"),
            attr("sender", "A"),
            attr("delegated", "B"),
        ]
    );
    assert_eq!(
        engagement::query_delegated(&state, "A".to_owned()).delegated,
        "B"
    );
    engagement::execute_delegate_withdrawal(&mut state, &info("A"), "A".to_owned()).unwrap();
    assert_eq!(state.adjustments, before);

    // the one delegated to withdraws, and the tokens go to it
    engagement::execute_delegate_withdrawal(&mut state, &info("A"), "B".to_owned()).unwrap();
    let res = engagement::execute_withdraw_rewards(&mut state, &info("B"), Some("A".to_owned()), None).unwrap();
    assert_eq!(
        res.messages,
        vec![Msg::Send {
            to_address: "B".to_owned(),
            amount: coin(10, "usdc"),
        }]
    );
}

#[test]
fn privileges_asked_for() {
    let with = engagement_of(vec![], Some(DAY));
    assert_eq!(
        engagement::sudo(
            &mut with.clone(),
            &env_at(2, 2_000),
            engagement_msg::SudoMsg::PrivilegeChange(engagement_msg::PrivilegeChangeMsg::Promoted)
        )
        .unwrap()
        .messages,
        vec![Msg::RequestPrivilege {
            privilege: Privilege::EndBlocker
        }]
    );
    let mut without = engagement_of(vec![], None);
    assert_eq!(
        engagement::sudo(
            &mut without,
            &env_at(2, 2_000),
            engagement_msg::SudoMsg::PrivilegeChange(engagement_msg::PrivilegeChangeMsg::Promoted)
        )
        .unwrap(),
        Response::new()
    );
    assert_eq!(
        engagement::sudo(&mut without, &env_at(2, 2_000), engagement_msg::SudoMsg::BeginBlock).unwrap_err(),
        ContractError::UnknownSudoMsg
    );
    assert_eq!(
        engagement::sudo(
            &mut without,
            &env_at(2, 2_000),
            engagement_msg::SudoMsg::PrivilegeChange(engagement_msg::PrivilegeChangeMsg::Demoted)
        )
        .unwrap_err(),
        ContractError::UnknownSudoMsg
    );

    let mut auto = stake_of(3);
    assert_eq!(
        stake::sudo(
            &mut auto,
            &env_at(2, 2_000),
            stake_msg::SudoMsg::PrivilegeChange(stake_msg::PrivilegeChangeMsg::Promoted)
        )
        .unwrap()
        .messages,
        vec![
            Msg::RequestPrivilege {
                privilege: Privilege::EndBlocker
            },
            Msg::RequestPrivilege {
                privilege: Privilege::Delegator
            },
        ]
    );
    let mut manual = stake_of(0);
    assert_eq!(
        stake::sudo(
            &mut manual,
            &env_at(2, 2_000),
            stake_msg::SudoMsg::PrivilegeChange(stake_msg::PrivilegeChangeMsg::Promoted)
        )
        .unwrap()
        .messages,
        vec![Msg::RequestPrivilege {
            privilege: Privilege::Delegator
        }]
    );
    assert_eq!(
        stake::sudo(&mut manual, &env_at(2, 2_000), stake_msg::SudoMsg::BeginBlock).unwrap_err(),
        ContractError::UnknownSudoMsg
    );
    assert_eq!(
        stake::sudo(&mut manual, &env_at(2, 2_000), stake_msg::SudoMsg::EndBlock).unwrap(),
        Response::new()
    );
}

#[test]
fn migrations() {
    let mut state = stake_of(0);
    let msg = stake_msg::MigrateMsg {
        tokens_per_point: Some(0),
        min_bond: Some(0),
        unbonding_period: Some(7),
        auto_return_limit: Some(9),
    };
    stake::migrate(&mut state, msg).unwrap();
    assert_eq!(state.config.tokens_per_point, 1);
    assert_eq!(state.config.min_bond, 1);
    assert_eq!(state.config.unbonding_period, Duration::new(7));
    assert_eq!(state.config.auto_return_limit, 9);
    let msg = stake_msg::MigrateMsg {
        tokens_per_point: Some(20),
        min_bond: None,
        unbonding_period: None,
        auto_return_limit: None,
    };
    stake::migrate(&mut state, msg).unwrap();
    assert_eq!(state.config.tokens_per_point, 20);
    assert_eq!(state.config.min_bond, 1);
    assert_eq!(state.config.unbonding_period, Duration::new(7));

    let mut state = engagement_of(vec![], Some(DAY));
    engagement::migrate(&mut state, engagement_msg::MigrateMsg { halflife: None }).unwrap();
    assert_eq!(state.halflife.halflife, Some(Duration::new(DAY)));
    engagement::migrate(
        &mut state,
        engagement_msg::MigrateMsg {
            halflife: Some(Duration::new(5)),
        },
    )
    .unwrap();
    assert_eq!(state.halflife.halflife, Some(Duration::new(5)));
    engagement::migrate(
        &mut state,
        engagement_msg::MigrateMsg {
            halflife: Some(Duration::new(0)),
        },
    )
    .unwrap();
    assert_eq!(state.halflife.halflife, None);
}

#[test]
fn admin_is_handed_over() {
    let mut state = stake_of(0);
    let env = env_at(2, 2_000);
    assert_eq!(
        stake::execute(
            &mut state,
            &env,
            &info("user"),
            stake_msg::ExecuteMsg::UpdateAdmin { admin: None }
        )
        .unwrap_err(),
        ContractError::NotAdmin
    );
    let res = stake::execute(
        &mut state,
        &env,
        &info("admin"),
        stake_msg::ExecuteMsg::UpdateAdmin {
            admin: Some("next".to_owned()),
        },
    )
    .unwrap();
    assert_eq!(
        res.attributes,
        vec![
            attr("action", "update_admin"),
            attr("admin", "next"),
            attr("sender", "admin"),
        ]
    );
    let res = stake::execute(
        &mut state,
        &env,
        &info("next"),
        stake_msg::ExecuteMsg::UpdateAdmin { admin: None },
    )
    .unwrap();
    assert_eq!(res.attributes[1], attr("admin", "None"));
    assert_eq!(state.admin.query_admin(), None);
}

#[test]
fn points_at_earlier_heights() {
    let mut state = engagement_of(vec![member("A", 1)], None);
    let admin = info("admin");
    // written out of the order of the heights
    engagement::execute_add_points(&mut state, &env_at(30, 0), &admin, "A".to_owned(), 1).unwrap();
    engagement::execute_add_points(&mut state, &env_at(20, 0), &admin, "A".to_owned(), 1).unwrap();
    engagement::execute_add_points(&mut state, &env_at(20, 0), &admin, "A".to_owned(), 1).unwrap();
    let at = |h: u64| engagement::query_member(&state, &"A".to_owned(), Some(h)).points;
    assert_eq!(at(1), None);
    // the first change on record from 2 on is the one at 20, which found 2 points
    assert_eq!(at(2), Some(2));
    assert_eq!(at(20), Some(2));
    assert_eq!(at(21), Some(1));
    assert_eq!(at(30), Some(1));
    assert_eq!(at(31), Some(4));
    assert_eq!(points_of(&state, "A"), Some(4));
}
