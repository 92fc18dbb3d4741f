use poe_core::decimal::Decimal;
use poe_core::engagement::contract as engagement;
use poe_core::engagement::limits as engagement_limits;
use poe_core::engagement::msg as engagement_msg;
use poe_core::engagement::state::Engagement;
use poe_core::stake::contract as stake;
use poe_core::stake::limits as stake_limits;
use poe_core::stake::msg as stake_msg;
use poe_core::stake::state::Stake;
use poe_core::time::Duration;
use poe_core::types::{BlockInfo, Coin, Env, Member, MessageInfo, Timestamp};

fn env_at(height: u64, seconds: u64) -> Env {
    Env {
        block: BlockInfo {
            height,
            time: Timestamp::from_seconds(seconds),
        },
    }
}

fn info(sender: &str) -> MessageInfo {
    MessageInfo {
        sender: sender.to_owned(),
        funds: vec![],
    }
}

fn member(addr: &str, points: u64) -> Member {
    Member {
        addr: addr.to_owned(),
        points,
        start_height: None,
    }
}

fn engagement_of(members: Vec<Member>, halflife: Option<u64>) -> Engagement {
    let msg = engagement_msg::InstantiateMsg {
        admin: Some("admin".to_owned()),
        members,
        preauths_hooks: 0,
        preauths_slashing: 1,
        halflife: halflife.map(Duration::new),
        denom: "usdc".to_owned(),
    };
    engagement::instantiate(&env_at(1, 1_000), msg).unwrap().0
}

fn stake_of(limit: u64) -> Stake {
    let msg = stake_msg::InstantiateMsg {
        denom: "stake".to_owned(),
        tokens_per_point: 1,
        min_bond: 1,
        unbonding_period: 100,
        admin: Some("admin".to_owned()),
        preauths_hooks: 0,
        preauths_slashing: 1,
        auto_return_limit: limit,
    };
    stake::instantiate(&env_at(1, 1_000), msg).unwrap().0
}

#[test]
fn totals_of_points_must_fit() {
    let state = engagement_of(vec![member("A", u64::MAX - 5)], None);
    assert!(engagement_limits::points_change_fits(&state, &"B".to_owned(), Some(5), 2));
    assert!(!engagement_limits::points_change_fits(&state, &"B".to_owned(), Some(6), 2));
    assert!(engagement_limits::points_change_fits(&state, &"A".to_owned(), Some(u64::MAX), 2));
    assert!(engagement_limits::points_change_fits(&state, &"A".to_owned(), None, 2));

    let env = env_at(2, 2_000);
    let admin = info("admin");
    let fits = |add: Vec<Member>, remove: Vec<String>| {
        engagement_limits::execute_fits(
            &state,
            &env,
            &admin,
            &engagement_msg::ExecuteMsg::UpdateMembers { remove, add },
            0,
        )
    };
    assert!(fits(vec![member("B", 5)], vec![]));
    assert!(!fits(vec![member("B", 5), member("C", 1)], vec![]));
    // the additions come first, so room that a removal makes comes too late
    assert!(!fits(vec![member("B", 6)], vec!["A".to_owned()]));
    assert!(fits(vec![member("A", 1), member("B", 6)], vec![]));
    // who is not the admin is refused whatever the numbers are
    assert!(engagement_limits::execute_fits(
        &state,
        &env,
        &info("other"),
        &engagement_msg::ExecuteMsg::UpdateMembers {
            remove: vec![],
            add: vec![member("B", 6)]
        },
        0,
    ));
    assert!(!engagement_limits::execute_fits(
        &state,
        &env,
        &admin,
        &engagement_msg::ExecuteMsg::AddPoints {
            addr: "A".to_owned(),
            points: 6
        },
        0,
    ));
    assert!(engagement_limits::execute_fits(
        &state,
        &env,
        &admin,
        &engagement_msg::ExecuteMsg::AddPoints {
            addr: "A".to_owned(),
            points: 5
        },
        0,
    ));
}

#[test]
fn distributions_must_fit() {
    let mut state = engagement_of(vec![member("A", 1)], None);
    let env = env_at(2, 2_000);
    assert!(engagement_limits::distribution_fits(&state, 0));
    assert!(engagement_limits::distribution_fits(&state, (1u128 << 96) - 1));
    assert!(!engagement_limits::distribution_fits(&state, 1u128 << 96));
    engagement::execute_distribute_rewards(&mut state, &env, &info("x"), None, 1_000).unwrap();
    // the balance must hold what can be withdrawn
    assert!(!engagement_limits::distribution_fits(&state, 999));
    assert!(engagement_limits::distribution_fits(&state, 1_000));
    assert!(engagement_limits::query_fits(
        &state,
        &engagement_msg::QueryMsg::UndistributedRewards,
        1_000
    ));
    assert!(!engagement_limits::query_fits(
        &state,
        &engagement_msg::QueryMsg::UndistributedRewards,
        999
    ));
    assert!(engagement_limits::payout_fits(&state, &"A".to_owned()));
    assert!(engagement_limits::payout_fits(&state, &"nobody".to_owned()));

    // with many shares per point, many points do not fit
    engagement::execute_distribute_rewards(&mut state, &env, &info("x"), None, (1u128 << 94) + 1_000)
        .unwrap();
    assert!(engagement_limits::points_change_fits(&state, &"B".to_owned(), Some(1), 3));
    assert!(!engagement_limits::points_change_fits(&state, &"B".to_owned(), Some(2), 3));
    assert!(!engagement_limits::sudo_fits(
        &state,
        &env,
        &engagement_msg::SudoMsg::UpdateMember(member("B", 2))
    ));
}

#[test]
fn halvings_must_fit() {
    let state = engagement_of(vec![member("A", 11)], Some(10));
    assert!(engagement_limits::halving_fits_now(&state));
    assert!(engagement_limits::sudo_fits(
        &state,
        &env_at(2, 2_000),
        &engagement_msg::SudoMsg::EndBlock
    ));
    let mut state = engagement_of(vec![member("A", 11)], Some(u64::MAX));
    assert!(!engagement_limits::sudo_fits(
        &state,
        &env_at(2, 2_000),
        &engagement_msg::SudoMsg::EndBlock
    ));
    assert!(!engagement_limits::query_fits(
        &state,
        &engagement_msg::QueryMsg::Halflife,
        0
    ));
    state.halflife.halflife = None;
    assert!(engagement_limits::sudo_fits(
        &state,
        &env_at(2, 2_000),
        &engagement_msg::SudoMsg::EndBlock
    ));
}

#[test]
fn stakes_must_fit() {
    let mut state = stake_of(0);
    let env = env_at(2, 2_000);
    let bond = |state: &Stake, sender: &str, amount: u128| {
        stake_limits::execute_fits(
            state,
            &env,
            &MessageInfo {
                sender: sender.to_owned(),
                funds: vec![Coin {
                    denom: "stake".to_owned(),
                    amount,
                }],
            },
            &stake_msg::ExecuteMsg::Bond {
                vesting_tokens: None,
            },
        )
    };
    // one point for every token: more tokens than 64 bits hold give too many points
    assert!(bond(&state, "u1", u64::MAX as u128));
    assert!(!bond(&state, "u1", u64::MAX as u128 + 1));
    // funds that are refused anyway fit
    assert!(stake_limits::execute_fits(
        &state,
        &env,
        &MessageInfo {
            sender: "u1".to_owned(),
            funds: vec![Coin {
                denom: "other".to_owned(),
                amount: u128::MAX,
            }],
        },
        &stake_msg::ExecuteMsg::Bond {
            vesting_tokens: None,
        },
    ));
    stake::execute_bond(
        &mut state,
        &env,
        &MessageInfo {
            sender: "u1".to_owned(),
            funds: vec![Coin {
                denom: "stake".to_owned(),
                amount: u64::MAX as u128 - 10,
            }],
        },
        None,
    )
    .unwrap();
    // the total of the points must fit too
    assert!(bond(&state, "u2", 10));
    assert!(!bond(&state, "u2", 11));
    assert!(bond(&state, "u1", 10));
    assert!(!bond(&state, "u1", 11));

    let unbond = |state: &Stake, env: &Env, amount: u128| {
        stake_limits::execute_fits(
            state,
            env,
            &info("u1"),
            &stake_msg::ExecuteMsg::Unbond {
                tokens: Coin {
                    denom: "stake".to_owned(),
                    amount,
                },
            },
        )
    };
    assert!(unbond(&state, &env, 5));
    // an unbonding that is refused anyway fits
    assert!(unbond(&state, &env, u128::MAX));
    // the release must lie within the range of the times
    let late = Env {
        block: BlockInfo {
            height: 3,
            time: Timestamp::from_nanos(u64::MAX - 99_999_999_999),
        },
    };
    assert!(!unbond(&state, &late, 5));
    assert!(stake_limits::execute_fits(
        &state,
        &env,
        &info("u1"),
        &stake_msg::ExecuteMsg::Claim
    ));
    assert!(stake_limits::sudo_fits(&state, &env, &stake_msg::SudoMsg::EndBlock));
    stake::execute_add_slasher(&mut state, &info("admin"), "slasher".to_owned()).unwrap();
    assert!(stake_limits::execute_fits(
        &state,
        &env,
        &info("slasher"),
        &stake_msg::ExecuteMsg::Slash {
            addr: "u1".to_owned(),
            portion: Decimal::percent(50)
        }
    ));
}
