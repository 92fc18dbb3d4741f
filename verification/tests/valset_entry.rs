use poe_core::decimal::Decimal;
use poe_core::error::ContractError;
use poe_core::time::{Duration, Expiration};
use poe_core::types::{BlockInfo, Coin, Env, MessageInfo, Timestamp};
use poe_core::valset::contract::instantiate;
use poe_core::members::Members;
use poe_core::types::{Member, Msg, Response};
use poe_core::valset::entry::{
    execute, execute_fits, list_jailed_validators, list_validators, query_config, query_validator,
    sudo_end_block,
};
use poe_core::valset::msg::{
    ExecuteMsg, InstantiateMsg, JailingDuration, JailingEnd, JailingPeriod, OperatorInitInfo,
    OperatorResponse, UnvalidatedDistributionContracts, ValidatorMetadata,
};
use poe_core::valset::state::{Pubkey, Valset};

fn block(height: u64, seconds: u64) -> Env {
    Env { block: BlockInfo { height, time: Timestamp::from_seconds(seconds) } }
}

fn from(sender: &str) -> MessageInfo {
    MessageInfo { sender: sender.to_owned(), funds: vec![] }
}

fn key(seed: u8) -> Vec<u8> {
    vec![seed; 32]
}

fn named(name: &str) -> ValidatorMetadata {
    ValidatorMetadata { moniker: name.to_owned(), ..ValidatorMetadata::default() }
}

fn engine(operators: &[(&str, u8)]) -> Valset {
    let msg = InstantiateMsg {
        admin: Some("admin".to_owned()),
        membership: "membership".to_owned(),
        min_points: 1,
        max_validators: 10,
        epoch_length: 100,
        epoch_reward: Coin { denom: "utgd".to_owned(), amount: 1_000 },
        initial_keys: operators
            .iter()
            .map(|(name, seed)| OperatorInitInfo {
                operator: (*name).to_owned(),
                validator_pubkey: Pubkey::Ed25519(key(*seed)),
                metadata: named(name),
            })
            .collect(),
        scaling: None,
        fee_percentage: Decimal::zero(),
        auto_unjail: false,
        double_sign_slash_ratio: Decimal::percent(50),
        distribution_contracts: UnvalidatedDistributionContracts::default(),
        validator_group_code_id: 1,
        verify_validators: false,
        offline_jail_duration: Duration::new(0),
    };
    instantiate(&block(1, 1_000), msg, "validators".to_owned()).unwrap().0
}

fn answer(name: &str, seed: u8, jailed_until: Option<JailingPeriod>) -> OperatorResponse {
    OperatorResponse {
        operator: name.to_owned(),
        pubkey: Pubkey::Ed25519(key(seed)),
        metadata: named(name),
        jailed_until,
        active_validator: false,
    }
}

fn until(start: u64, end: u64) -> JailingPeriod {
    JailingPeriod {
        start: Timestamp::from_seconds(start),
        end: JailingEnd::Until(Expiration::at_timestamp(Timestamp::from_seconds(end))),
    }
}

#[test]
fn messages_reach_their_operations() {
    let mut state = engine(&[("alice", 1)]);
    let env = block(2, 1_010);

    let register = ExecuteMsg::RegisterValidatorKey { pubkey: Pubkey::Ed25519(key(2)), metadata: named("bob") };
    assert!(execute_fits(&state, &env, &register));
    execute(&mut state, &env, &from("bob"), register.clone()).unwrap();
    assert_eq!(query_validator(&state, &"bob".to_owned()).validator, Some(answer("bob", 2, None)));
    assert_eq!(
        execute(&mut state, &env, &from("bob"), register),
        Err(ContractError::AlreadyRegistered)
    );
    let taken = ExecuteMsg::RegisterValidatorKey { pubkey: Pubkey::Ed25519(key(1)), metadata: named("carol") };
    assert_eq!(execute(&mut state, &env, &from("carol"), taken), Err(ContractError::DuplicatePubkey));
    let short =
        ExecuteMsg::RegisterValidatorKey { pubkey: Pubkey::Ed25519(vec![7; 31]), metadata: named("carol") };
    assert_eq!(execute(&mut state, &env, &from("carol"), short), Err(ContractError::InvalidPubkey));

    let renamed = ExecuteMsg::UpdateMetadata(named("bobby"));
    execute(&mut state, &env, &from("bob"), renamed).unwrap();
    assert_eq!(
        query_validator(&state, &"bob".to_owned()).validator.unwrap().metadata,
        named("bobby")
    );
    assert_eq!(
        execute(&mut state, &env, &from("dave"), ExecuteMsg::UpdateMetadata(named("dave"))),
        Err(ContractError::OperatorNotFound)
    );

    let jail = ExecuteMsg::Jail { operator: "alice".to_owned(), duration: JailingDuration::Duration(Duration::new(60)) };
    assert_eq!(execute(&mut state, &env, &from("bob"), jail.clone()), Err(ContractError::NotAdmin));
    execute(&mut state, &env, &from("admin"), jail).unwrap();
    assert_eq!(
        query_validator(&state, &"alice".to_owned()).validator,
        Some(answer("alice", 1, Some(until(1_010, 1_070))))
    );
    let unjail = ExecuteMsg::Unjail { operator: None };
    assert_eq!(
        execute(&mut state, &block(3, 1_069), &from("alice"), unjail.clone()),
        Err(ContractError::JailingNotExpired)
    );
    execute(&mut state, &block(3, 1_070), &from("alice"), unjail).unwrap();
    assert_eq!(query_validator(&state, &"alice".to_owned()).validator, Some(answer("alice", 1, None)));

    let slash = ExecuteMsg::Slash { addr: "alice".to_owned(), portion: Decimal::percent(101) };
    assert_eq!(execute(&mut state, &env, &from("admin"), slash), Err(ContractError::InvalidPortion));
    let slash = ExecuteMsg::Slash { addr: "alice".to_owned(), portion: Decimal::percent(10) };
    assert_eq!(execute(&mut state, &env, &from("alice"), slash.clone()), Err(ContractError::NotAdmin));
    let before = state.clone();
    let res = execute(&mut state, &env, &from("admin"), slash).unwrap();
    assert_eq!(res.messages.len(), 2);
    assert_eq!(state, before);

    let hand_over = ExecuteMsg::UpdateAdmin { admin: Some("bob".to_owned()) };
    assert_eq!(execute(&mut state, &env, &from("bob"), hand_over.clone()), Err(ContractError::NotAdmin));
    execute(&mut state, &env, &from("admin"), hand_over).unwrap();
    assert_eq!(state.admin.query_admin(), Some("bob".to_owned()));

    let settings = ExecuteMsg::UpdateConfig {
        min_points: Some(5),
        max_validators: None,
        scaling: None,
        epoch_reward: None,
        fee_percentage: None,
        auto_unjail: Some(true),
        double_sign_slash_ratio: None,
        distribution_contracts: None,
        verify_validators: None,
        offline_jail_duration: None,
    };
    assert_eq!(execute(&mut state, &env, &from("admin"), settings.clone()), Err(ContractError::NotAdmin));
    execute(&mut state, &env, &from("bob"), settings).unwrap();
    assert_eq!(state.config.min_points, 5);
    assert_eq!(state.config.max_validators, 10);
    assert!(state.config.auto_unjail);
}

#[test]
fn a_jailing_must_end_in_range() {
    let state = engine(&[("alice", 1)]);
    let env = block(2, 1_010);
    let forever = ExecuteMsg::Jail { operator: "alice".to_owned(), duration: JailingDuration::Forever };
    assert!(execute_fits(&state, &env, &forever));
    let long = ExecuteMsg::Jail {
        operator: "alice".to_owned(),
        duration: JailingDuration::Duration(Duration::new(u64::MAX / 1_000_000_000)),
    };
    assert!(!execute_fits(&state, &env, &long));
    let longest = ExecuteMsg::Jail {
        operator: "alice".to_owned(),
        duration: JailingDuration::Duration(Duration::new(u64::MAX / 1_000_000_000 - 1_010)),
    };
    assert!(execute_fits(&state, &env, &longest));
}

#[test]
fn unknown_operators_have_no_answer() {
    let state = engine(&[("alice", 1), ("bob", 2)]);
    assert_eq!(query_validator(&state, &"carol".to_owned()).validator, None);
    assert_eq!(query_validator(&state, &"alice".to_owned()).validator, Some(answer("alice", 1, None)));
}

#[test]
fn jailed_operators_are_listed_in_address_order() {
    let mut state = engine(&[("carol", 3), ("alice", 1), ("bob", 2)]);
    assert_eq!(list_jailed_validators(&state, None, None).validators, vec![]);
    let env = block(2, 2_000);
    for (name, duration) in [
        ("carol", JailingDuration::Duration(Duration::new(10))),
        ("alice", JailingDuration::Forever),
    ] {
        let msg = ExecuteMsg::Jail { operator: name.to_owned(), duration };
        execute(&mut state, &env, &from("admin"), msg).unwrap();
    }
    let forever = JailingPeriod { start: Timestamp::from_seconds(2_000), end: JailingEnd::Forever };
    assert_eq!(
        list_jailed_validators(&state, None, None).validators,
        vec![answer("alice", 1, Some(forever)), answer("carol", 3, Some(until(2_000, 2_010)))]
    );
    assert_eq!(
        list_jailed_validators(&state, Some("alice".to_owned()), None).validators,
        vec![answer("carol", 3, Some(until(2_000, 2_010)))]
    );
    assert_eq!(
        list_jailed_validators(&state, None, Some(1)).validators,
        vec![answer("alice", 1, Some(forever))]
    );
    assert_eq!(list_jailed_validators(&state, Some("carol".to_owned()), None).validators, vec![]);
}

#[test]
fn operators_are_listed_by_pages() {
    let names: Vec<String> = (0..120u8).map(|i| format!("op{:03}", i)).collect();
    let operators: Vec<(&str, u8)> = names.iter().enumerate().map(|(i, n)| (n.as_str(), i as u8)).collect();
    let state = engine(&operators);

    let first = list_validators(&state, None, None).validators;
    assert_eq!(first.len(), 30);
    assert_eq!(first[0], answer("op000", 0, None));
    assert_eq!(first[29], answer("op029", 29, None));

    let next = list_validators(&state, Some("op029".to_owned()), Some(2)).validators;
    assert_eq!(next, vec![answer("op030", 30, None), answer("op031", 31, None)]);

    // an address between two operators is a bound like any other
    let between = list_validators(&state, Some("op0305".to_owned()), Some(1)).validators;
    assert_eq!(between, vec![answer("op031", 31, None)]);

    // no listing holds more than a hundred
    assert_eq!(list_validators(&state, None, Some(1_000)).validators.len(), 100);
    assert_eq!(list_validators(&state, None, Some(100)).validators.len(), 100);
    assert_eq!(list_validators(&state, None, Some(0)).validators, vec![]);
    let last = list_validators(&state, Some("op117".to_owned()), Some(100)).validators;
    assert_eq!(last, vec![answer("op118", 118, None), answer("op119", 119, None)]);
    assert_eq!(list_validators(&state, Some("op119".to_owned()), None).validators, vec![]);
}

#[test]
fn the_settings_are_told() {
    let state = engine(&[("alice", 1)]);
    let config = query_config(&state);
    assert_eq!(config, &state.config);
    assert_eq!(config.min_points, 1);
    assert_eq!(config.max_validators, 10);
    assert_eq!(config.validator_group, "validators");
    assert_eq!(config.epoch_reward, Coin { denom: "utgd".to_owned(), amount: 1_000 });
}

#[test]
fn a_new_epoch_shares_out_the_reward() {
    let mut state = engine(&[("alice", 1), ("bob", 2)]);
    let mut members = Members::new();
    members.set(&"alice".to_owned(), Some(7), 1);
    members.set(&"bob".to_owned(), Some(3), 1);

    let out = sudo_end_block(&mut state, &block(3, 1_100), &members, 400).unwrap();
    assert_eq!(
        out.response.messages,
        vec![
            Msg::UpdateMembers {
                contract: "validators".to_owned(),
                remove: vec![],
                add: vec![
                    Member { addr: "alice".to_owned(), points: 7, start_height: None },
                    Member { addr: "bob".to_owned(), points: 3, start_height: None },
                ],
            },
            Msg::DistributeRewards {
                contract: "validators".to_owned(),
                funds: Coin { denom: "utgd".to_owned(), amount: 1_000 },
            },
        ]
    );
    assert_eq!(out.diff.unwrap().diffs.len(), 2);
    assert_eq!(state.epoch.current_epoch, 11);

    // later in the same epoch nothing is computed and nothing is shared out
    let out = sudo_end_block(&mut state, &block(4, 1_199), &members, 400).unwrap();
    assert_eq!(out.response, Response::new());
    assert_eq!(out.diff, None);
}
