use poe_core::decimal::Decimal;
use poe_core::engagement::contract::{
    end_block, execute, execute_add_points, execute_slash, execute_update_members, instantiate,
    list_members, list_members_by_points, points_reduction, query, query_halflife, query_member,
    query_total_points, sudo_add_member,
};
use poe_core::engagement::msg::{
    ExecuteMsg, HalflifeInfo, InstantiateMsg, QueryMsg, QueryResponse,
};
use poe_core::engagement::state::{Distribution, Engagement, WithdrawAdjustment};
use poe_core::error::ContractError;
use poe_core::time::Duration;
use poe_core::types::{
    Attribute, BlockInfo, Env, Event, Member, MemberDiff, MessageInfo, Msg, Response, Timestamp,
};

const INIT_ADMIN: &str = "admin";
const USER1: &str = "user1";
const USER1_POINTS: u64 = 11;
const USER2: &str = "user2";
const USER2_POINTS: u64 = 6;
const USER3: &str = "user3";
const HALFLIFE: u64 = 180 * 24 * 60 * 60;

fn mock_env() -> Env {
    Env {
        block: BlockInfo {
            height: 12_345,
            time: Timestamp::from_nanos(1_571_797_419_879_305_533),
        },
    }
}

fn mock_env_height(height_offset: u64) -> Env {
    let mut env = mock_env();
    env.block.height += height_offset;
    env
}

fn mock_info(sender: &str) -> MessageInfo {
    MessageInfo {
        sender: sender.to_owned(),
        funds: vec![],
    }
}

fn member(addr: &str, points: u64) -> Member {
    Member {
        addr: addr.into(),
        points,
        start_height: None,
    }
}

fn do_instantiate() -> Engagement {
    let msg = InstantiateMsg {
        admin: Some(INIT_ADMIN.into()),
        members: vec![member(USER1, USER1_POINTS), member(USER2, USER2_POINTS)],
        preauths_hooks: 1,
        preauths_slashing: 0,
        halflife: Some(Duration::new(HALFLIFE)),
        denom: "usdc".to_owned(),
    };
    let (state, _) = instantiate(&mock_env(), msg).unwrap();
    state
}

fn hook_msg(contract: &str, diffs: &[MemberDiff]) -> Msg {
    Msg::MemberChangedHook {
        contract: contract.to_owned(),
        diffs: diffs.to_vec(),
    }
}

fn assert_users(
    state: &Engagement,
    user1_points: Option<u64>,
    user2_points: Option<u64>,
    user3_points: Option<u64>,
    height: Option<u64>,
) {
    let member1 = query_member(state, &USER1.to_owned(), height);
    assert_eq!(member1.points, user1_points);

    let member2 = query_member(state, &USER2.to_owned(), height);
    assert_eq!(member2.points, user2_points);

    let member3 = query_member(state, &USER3.to_owned(), height);
    assert_eq!(member3.points, user3_points);

    // this is only valid if we are not doing a historical query
    if height.is_none() {
        // compute expected metrics
        let points = vec![user1_points, user2_points, user3_points];
        let sum: u64 = points.iter().map(|x| x.unwrap_or_default()).sum();
        let count = points.iter().filter(|x| x.is_some()).count();

        let members = list_members(state, None, None);
        assert_eq!(count, members.members.len());

        let total = query_total_points(state);
        assert_eq!(sum, total.points);
    }
}

#[test]
fn proper_instantiation() {
    let state = do_instantiate();

    // it worked, let's query the state
    assert_eq!(Some(INIT_ADMIN.to_owned()), state.admin.query_admin());

    let res = query_total_points(&state);
    assert_eq!(17, res.points);

    let preauths = state.preauth_hooks.get_auth();
    assert_eq!(1, preauths);

    let res = query(&state, &mock_env(), QueryMsg::DistributionData, 0);
    assert_eq!(
        res,
        QueryResponse::DistributionData(Distribution {
            denom: "usdc".to_owned(),
            shares_per_point: 0,
            shares_leftover: 0,
            distributed_total: 0,
            withdrawable_total: 0,
        })
    );

    let res = query(
        &state,
        &mock_env(),
        QueryMsg::WithdrawAdjustmentData {
            addr: USER1.to_owned(),
        },
        0,
    );
    assert_eq!(
        res,
        QueryResponse::WithdrawAdjustmentData(Some(WithdrawAdjustment {
            shares_correction: 0,
            withdrawn_rewards: 0,
            delegated: "user1".to_owned(),
        }))
    );
}

#[test]
fn try_member_queries() {
    let state = do_instantiate();

    let member1 = query_member(&state, &USER1.into(), None);
    assert_eq!(member1.points, Some(11));

    let member2 = query_member(&state, &USER2.into(), None);
    assert_eq!(member2.points, Some(6));

    let member3 = query_member(&state, &USER3.into(), None);
    assert_eq!(member3.points, None);

    let members = list_members(&state, None, None);
    assert_eq!(members.members.len(), 2);
    // assert the set is proper
    let members = list_members(&state, None, None).members;
    assert_eq!(members.len(), 2);
    // Assert the set is proper
    assert_eq!(members, vec![member(USER1, 11), member(USER2, 6)]);

    // Test pagination / limits
    let members = list_members(&state, None, Some(1)).members;
    assert_eq!(members.len(), 1);
    // Assert the set is proper
    assert_eq!(members, vec![member(USER1, 11)]);

    // Next page
    let start_after = Some(members[0].addr.clone());
    let members = list_members(&state, start_after, Some(1)).members;
    assert_eq!(members.len(), 1);
    // Assert the set is proper
    assert_eq!(members, vec![member(USER2, 6)]);

    // Assert there's no more
    let start_after = Some(members[0].addr.clone());
    let members = list_members(&state, start_after, Some(1)).members;
    assert_eq!(members.len(), 0);
}

#[test]
fn try_list_members_by_points() {
    let state = do_instantiate();

    let members = list_members_by_points(&state, None, None).members;
    assert_eq!(members.len(), 2);
    // Assert the set is sorted by (descending) points
    assert_eq!(members, vec![member(USER1, 11), member(USER2, 6)]);

    // Test pagination / limits
    let members = list_members_by_points(&state, None, Some(1)).members;
    assert_eq!(members.len(), 1);
    // Assert the set is proper
    assert_eq!(members, vec![member(USER1, 11)]);

    // Next page
    let start_after = Some(members[0].clone());
    let members = list_members_by_points(&state, start_after, None).members;
    assert_eq!(members.len(), 1);
    // Assert the set is proper
    assert_eq!(members, vec![member(USER2, 6)]);

    // Assert there's no more
    let start_after = Some(members[0].clone());
    let members = list_members_by_points(&state, start_after, Some(1)).members;
    assert_eq!(members.len(), 0);
}

#[test]
fn try_halflife_queries() {
    let state = do_instantiate();

    let HalflifeInfo {
        last_halflife,
        halflife,
        next_halflife,
    } = query_halflife(&state).halflife_info.unwrap();

    // Last halflife event.
    let env_block_time = mock_env().block.time;
    assert_eq!(last_halflife, env_block_time);

    // Halflife duration.
    assert_eq!(halflife, Duration::new(HALFLIFE));

    // Next halflife event.
    let expected_next_halflife = last_halflife.plus_seconds(halflife.seconds());
    assert_eq!(expected_next_halflife, next_halflife);
}

#[test]
fn try_halflife_query_when_no_halflife() {
    let msg = InstantiateMsg {
        admin: Some(INIT_ADMIN.into()),
        members: vec![member(USER1, USER1_POINTS), member(USER2, USER2_POINTS)],
        preauths_hooks: 1,
        preauths_slashing: 0,
        halflife: None,
        denom: "usdc".to_owned(),
    };

    let (state, _) = instantiate(&mock_env(), msg).unwrap();

    assert_eq!(query_halflife(&state).halflife_info, None);
}

#[test]
fn add_new_remove_old_member() {
    let mut state = do_instantiate();

    // add a new one and remove existing one
    let add = vec![member(USER3, 15)];
    let remove = vec![USER1.to_owned()];

    // non-admin cannot update
    let env = mock_env_height(5);
    let info = mock_info(USER1);
    let height = env.block.height - 5;

    let err = execute_update_members(&mut state, &env, &info, add.clone(), remove.clone())
        .unwrap_err();
    assert_eq!(err, ContractError::NotAdmin);

    // Test the values from instantiate
    assert_users(&state, Some(11), Some(6), None, None);
    // Note all values were set at height, the beginning of that block was all None
    assert_users(&state, None, None, None, Some(height));
    // This will get us the values at the start of the block after instantiate (expected initial values)
    assert_users(&state, Some(11), Some(6), None, Some(height + 1));

    let env = mock_env_height(10);
    let info = mock_info(INIT_ADMIN);
    // admin updates properly
    execute_update_members(&mut state, &env, &info, add, remove).unwrap();

    // updated properly
    assert_users(&state, None, Some(6), Some(15), None);

    // snapshot still shows old value
    assert_users(&state, Some(11), Some(6), None, Some(height + 1));
}

#[test]
fn add_old_remove_new_member() {
    // add will over-write and remove have no effect
    let mut state = do_instantiate();

    // add a new one and remove existing one
    let add = vec![member(USER1, 4)];
    let remove = vec![USER3.to_owned()];

    let env = mock_env();
    let info = mock_info(INIT_ADMIN);

    // admin updates properly
    execute_update_members(&mut state, &env, &info, add, remove).unwrap();
    assert_users(&state, Some(4), Some(6), None, None);
}

#[test]
fn add_and_remove_same_member() {
    // add will over-write and remove have no effect
    let mut state = do_instantiate();

    // USER1 is updated and remove in the same call, we should remove this an add member3
    let add = vec![member(USER1, 20), member(USER3, 5)];
    let remove = vec![USER1.to_owned()];

    let env = mock_env();
    let info = mock_info(INIT_ADMIN);

    // admin updates properly
    execute_update_members(&mut state, &env, &info, add, remove).unwrap();
    assert_users(&state, None, Some(6), Some(5), None);
}

#[test]
fn sudo_add_new_member() {
    let mut state = do_instantiate();

    // add a new member
    let add = member(USER3, 15);

    let env = mock_env();
    let height = env.block.height;

    // Test the values from instantiate
    assert_users(&state, Some(11), Some(6), None, None);
    // Note all values were set at height, the beginning of that block was all None
    assert_users(&state, None, None, None, Some(height));
    // This will get us the values at the start of the block after instantiate (expected initial values)
    assert_users(&state, Some(11), Some(6), None, Some(height + 1));

    let env = mock_env_height(10);

    sudo_add_member(&mut state, &env, add).unwrap();

    // snapshot still shows old value
    assert_users(&state, Some(11), Some(6), None, Some(height + 10));

    // updated properly in next snapshot
    assert_users(&state, Some(11), Some(6), Some(15), Some(height + 11));

    // updated properly
    assert_users(&state, Some(11), Some(6), Some(15), None);
}

#[test]
fn sudo_update_existing_member() {
    let mut state = do_instantiate();

    // update an existing member
    let add = member(USER2, 1);

    let env = mock_env();
    let height = env.block.height;

    // Test the values from instantiate
    assert_users(&state, Some(11), Some(6), None, None);
    // Note all values were set at height, the beginning of that block was all None
    assert_users(&state, None, None, None, Some(height));
    // This will get us the values at the start of the block after instantiate (expected initial values)
    assert_users(&state, Some(11), Some(6), None, Some(height + 1));

    let env = mock_env_height(10);

    sudo_add_member(&mut state, &env, add).unwrap();

    // snapshot still shows old value
    assert_users(&state, Some(11), Some(6), None, Some(height + 10));

    // updated properly in next snapshot
    assert_users(&state, Some(11), Some(1), None, Some(height + 11));

    // updated properly
    assert_users(&state, Some(11), Some(1), None, None);
}

#[test]
fn add_remove_hooks() {
    // add will over-write and remove have no effect
    let mut state = do_instantiate();

    let hooks = state.hooks.list_hooks();
    assert!(hooks.is_empty());

    let contract1 = String::from("hook1");
    let contract2 = String::from("hook2");

    let add_msg = ExecuteMsg::AddHook {
        addr: contract1.clone(),
    };

    // anyone can add the first one, until preauth is consume
    assert_eq!(1, state.preauth_hooks.get_auth());
    let user_info = mock_info(USER1);
    let _ = execute(&mut state, &mock_env(), &user_info, add_msg.clone(), 0).unwrap();
    let hooks = state.hooks.list_hooks();
    assert_eq!(hooks, vec![contract1.clone()]);

    // non-admin cannot add hook without preauth
    assert_eq!(0, state.preauth_hooks.get_auth());
    let user_info = mock_info(USER1);
    let err = execute(&mut state, &mock_env(), &user_info, add_msg.clone(), 0).unwrap_err();
    assert_eq!(err, ContractError::NoPreauth);

    // cannot remove a non-registered contract
    let admin_info = mock_info(INIT_ADMIN);
    let remove_msg = ExecuteMsg::RemoveHook {
        addr: contract2.clone(),
    };
    let err = execute(&mut state, &mock_env(), &admin_info, remove_msg, 0).unwrap_err();
    assert_eq!(err, ContractError::HookNotRegistered);

    // admin can second contract, and it appears in the query
    let add_msg2 = ExecuteMsg::AddHook {
        addr: contract2.clone(),
    };
    execute(&mut state, &mock_env(), &admin_info, add_msg2, 0).unwrap();
    let hooks = state.hooks.list_hooks();
    assert_eq!(hooks, vec![contract1.clone(), contract2.clone()]);

    // cannot re-add an existing contract
    let err = execute(&mut state, &mock_env(), &admin_info, add_msg, 0).unwrap_err();
    assert_eq!(err, ContractError::HookAlreadyRegistered);

    // non-admin cannot remove
    let remove_msg = ExecuteMsg::RemoveHook { addr: contract1 };
    let err = execute(&mut state, &mock_env(), &user_info, remove_msg.clone(), 0).unwrap_err();
    assert_eq!(
        err,
        ContractError::Unauthorized(
            "Hook address is not same as sender's or sender is not an admin".to_owned()
        )
    );

    // remove the first
    execute(&mut state, &mock_env(), &admin_info, remove_msg, 0).unwrap();
    let hooks = state.hooks.list_hooks();
    assert_eq!(hooks, vec![contract2.clone()]);

    // contract can self-remove
    let contract_info = mock_info(&contract2);
    let remove_msg2 = ExecuteMsg::RemoveHook { addr: contract2 };
    execute(&mut state, &mock_env(), &contract_info, remove_msg2, 0).unwrap();
    let hooks = state.hooks.list_hooks();
    assert_eq!(hooks, Vec::<String>::new());
}

#[test]
fn hooks_fire() {
    let mut state = do_instantiate();

    let hooks = state.hooks.list_hooks();
    assert!(hooks.is_empty());

    let contract1 = String::from("hook1");
    let contract2 = String::from("hook2");

    // register 2 hooks
    let admin_info = mock_info(INIT_ADMIN);
    let add_msg = ExecuteMsg::AddHook {
        addr: contract1.clone(),
    };
    let add_msg2 = ExecuteMsg::AddHook {
        addr: contract2.clone(),
    };
    for msg in vec![add_msg, add_msg2] {
        let _ = execute(&mut state, &mock_env(), &admin_info, msg, 0).unwrap();
    }

    // make some changes - add 3, remove 2, and update 1
    // USER1 is updated and remove in the same call, we should remove this an add member3
    let add = vec![member(USER1, 20), member(USER3, 5)];
    let remove = vec![USER2.to_owned()];
    let msg = ExecuteMsg::UpdateMembers { remove, add };

    // admin updates properly
    assert_users(&state, Some(11), Some(6), None, None);
    let res = execute(&mut state, &mock_env(), &admin_info, msg, 0).unwrap();
    assert_users(&state, Some(20), None, Some(5), None);

    // ensure 2 messages for the 2 hooks
    assert_eq!(res.messages.len(), 2);
    // same order as in the message (adds first, then remove)
    let diffs = vec![
        MemberDiff::new(USER1.to_owned(), Some(11), Some(20)),
        MemberDiff::new(USER3.to_owned(), None, Some(5)),
        MemberDiff::new(USER2.to_owned(), Some(6), None),
    ];
    let msg1 = hook_msg(&contract1, &diffs);
    let msg2 = hook_msg(&contract2, &diffs);
    assert_eq!(res.messages, vec![msg1, msg2]);
}

#[test]
fn raw_queries_work() {
    // add will over-write and remove have no effect
    let state = do_instantiate();

    // get total as it is kept
    let total: u64 = state.members.total;
    assert_eq!(17, total);

    // get member votes as they are kept
    let member2 = state.members.current.get(&USER2.to_owned()).unwrap();
    assert_eq!(6, *member2);

    // and execute misses
    let member3 = state.members.current.get(&USER3.to_owned());
    assert_eq!(None, member3);
}

#[test]
fn halflife_workflow() {
    let mut state = do_instantiate();
    let mut env = mock_env();

    // end block just before half life time is met - do nothing
    env.block.time = env.block.time.plus_seconds(HALFLIFE - 2);
    assert_eq!(end_block(&mut state, &env), Ok(Response::new()));
    assert_users(&state, Some(USER1_POINTS), Some(USER2_POINTS), None, None);

    // end block at half life: every member keeps its points less half of them, rounded down
    env.block.time = env.block.time.plus_seconds(HALFLIFE);
    let expected_reduction = USER1_POINTS / 2 + USER2_POINTS / 2;
    let evt = Event {
        ty: "halflife".to_owned(),
        attributes: vec![
            Attribute {
                key: "height".to_owned(),
                value: env.block.height.to_string(),
            },
            Attribute {
                key: "reduction".to_owned(),
                value: expected_reduction.to_string(),
            },
        ],
    };
    let mut resp = Response::new();
    resp.add_event(evt);
    assert_eq!(end_block(&mut state, &env), Ok(resp));
    assert_users(
        &state,
        Some(points_reduction(USER1_POINTS)),
        Some(points_reduction(USER2_POINTS)),
        None,
        None,
    );
    assert_users(&state, Some(6), Some(3), None, None);

    // end block at same timestamp after last half life was met - do nothing
    end_block(&mut state, &env).unwrap();
    assert_users(&state, Some(6), Some(3), None, None);

    // after two more iterations of halftime + end block, the users have 2 points and 1 point
    env.block.time = env.block.time.plus_seconds(HALFLIFE);
    end_block(&mut state, &env).unwrap();
    env.block.time = env.block.time.plus_seconds(HALFLIFE);
    end_block(&mut state, &env).unwrap();
    assert_users(&state, Some(2), Some(1), None, None);

    // after one more, both users have 1 point, and keep it from then on
    env.block.time = env.block.time.plus_seconds(HALFLIFE);
    end_block(&mut state, &env).unwrap();
    assert_users(&state, Some(1), Some(1), None, None);
    env.block.time = env.block.time.plus_seconds(HALFLIFE);
    end_block(&mut state, &env).unwrap();
    assert_users(&state, Some(1), Some(1), None, None);
}

#[test]
fn add_to_existing_member() {
    let mut state = do_instantiate();

    let env = mock_env();
    let info = mock_info(INIT_ADMIN);

    // USER1 has 11 points at the start
    execute_add_points(&mut state, &env, &info, "user1".to_string(), 10).unwrap();
    assert_users(&state, Some(21), Some(6), None, None);
}

#[test]
fn add_to_nonexisting_member() {
    let mut state = do_instantiate();

    let env = mock_env();
    let info = mock_info(INIT_ADMIN);

    let new_user = "user111".to_owned();
    execute_add_points(&mut state, &env, &info, new_user.clone(), 10).unwrap();
    let new_member = query_member(&state, &new_user, None);
    assert_eq!(new_member.points, Some(10));
}

#[test]
fn slash_nonexisting_user() {
    let mut state = do_instantiate();

    let user1 = USER1.to_owned();
    state.slashers.add_slasher(user1.clone()).unwrap();

    // Trying to slash nonexisting user will result in no-op
    let res = execute_slash(
        &mut state,
        &mock_env(),
        &MessageInfo {
            sender: user1,
            funds: vec![],
        },
        "nonexisting_user".to_owned(),
        Decimal::percent(50),
    )
    .unwrap();
    assert_eq!(res, Response::new());
}
