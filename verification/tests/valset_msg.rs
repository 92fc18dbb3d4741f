use poe_core::decimal::Decimal;
use poe_core::error::ContractError;
use poe_core::time::{Duration, Expiration};
use poe_core::types::{BlockInfo, Timestamp};
use poe_core::valset::msg::{
    default_double_sign_slash, default_fee_percentage, default_validators_reward_ratio,
    InstantiateMsg, JailingDuration, JailingEnd, JailingPeriod, OperatorInitInfo, OperatorResponse,
    UnvalidatedDistributionContract, UnvalidatedDistributionContracts, ValidatorMetadata,
    MAX_METADATA_SIZE, MIN_METADATA_SIZE, MIN_MONIKER_LENGTH,
};
use poe_core::valset::state::{DistributionContract, Ed25519Pubkey, OperatorInfo, Pubkey};

const ED25519_PUBKEY_LENGTH: usize = 32;

fn mock_pubkey(base: &[u8]) -> Pubkey {
    let copies = (ED25519_PUBKEY_LENGTH / base.len()) + 1;
    let mut raw = base.repeat(copies);
    raw.truncate(ED25519_PUBKEY_LENGTH);
    Pubkey::Ed25519(raw)
}

fn mock_metadata(seed: &str) -> ValidatorMetadata {
    ValidatorMetadata {
        moniker: seed.into(),
        details: Some(format!("I'm really {}", seed)),
        ..ValidatorMetadata::default()
    }
}

fn valid_operator(seed: &str) -> OperatorInitInfo {
    OperatorInitInfo {
        operator: seed.into(),
        validator_pubkey: mock_pubkey(seed.as_bytes()),
        metadata: mock_metadata(seed),
    }
}

fn invalid_operator() -> OperatorInitInfo {
    OperatorInitInfo {
        operator: "foobar".into(),
        validator_pubkey: Pubkey::Ed25519(b"too-short".to_vec()),
        metadata: mock_metadata(""),
    }
}

#[test]
fn validate_operator_key() {
    valid_operator("foo").validate().unwrap();
    let err = invalid_operator().validate().unwrap_err();
    assert_eq!(err, ContractError::InvalidPubkey {});
}

fn coin(amount: u128, denom: &str) -> poe_core::types::Coin {
    poe_core::types::Coin {
        denom: denom.to_owned(),
        amount,
    }
}

#[test]
fn validate_init_msg() {
    let proper = InstantiateMsg {
        admin: None,
        membership: "contract-addr".into(),
        min_points: 5,
        max_validators: 20,
        epoch_length: 5000,
        epoch_reward: coin(7777, "foobar"),
        initial_keys: vec![valid_operator("foo"), valid_operator("bar")],
        scaling: None,
        fee_percentage: Decimal::zero(),
        auto_unjail: false,
        double_sign_slash_ratio: Decimal::percent(50),
        distribution_contracts: UnvalidatedDistributionContracts::default(),
        validator_group_code_id: 0,
        verify_validators: false,
        offline_jail_duration: Duration::new(0),
    };
    proper.validate().unwrap();

    // with scaling also works
    let mut with_scaling = proper.clone();
    with_scaling.scaling = Some(10);
    with_scaling.validate().unwrap();

    // fails on 0 scaling
    let mut invalid = proper.clone();
    invalid.scaling = Some(0);
    let err = invalid.validate().unwrap_err();
    assert_eq!(err, ContractError::InvalidScaling {});

    // fails on 0 min points
    let mut invalid = proper.clone();
    invalid.min_points = 0;
    let err = invalid.validate().unwrap_err();
    assert_eq!(err, ContractError::InvalidMinPoints {});

    // fails on 0 max validators
    let mut invalid = proper.clone();
    invalid.max_validators = 0;
    let err = invalid.validate().unwrap_err();
    assert_eq!(err, ContractError::InvalidMaxValidators {});

    // fails on 0 epoch size
    let mut invalid = proper.clone();
    invalid.epoch_length = 0;
    let err = invalid.validate().unwrap_err();
    assert_eq!(err, ContractError::InvalidEpoch {});

    // allows no operators
    let mut no_operators = proper.clone();
    no_operators.initial_keys = vec![];
    no_operators.validate().unwrap();

    // fails on invalid operator
    let mut invalid = proper.clone();
    invalid.initial_keys = vec![valid_operator("foo"), invalid_operator()];
    let err = invalid.validate().unwrap_err();
    assert_eq!(err, ContractError::InvalidPubkey {});

    // fails if no denom set for reward
    let mut invalid = proper;
    invalid.epoch_reward.denom = "".into();
    let err = invalid.validate().unwrap_err();
    assert_eq!(err, ContractError::InvalidRewardDenom {});
}

#[test]
fn validate_metadata() {
    let meta = ValidatorMetadata {
        moniker: "example".to_owned(),
        identity: Some((0..MAX_METADATA_SIZE + 1).map(|_| "X").collect::<String>()),
        website: Some((0..MAX_METADATA_SIZE + 1).map(|_| "X").collect::<String>()),
        security_contact: Some((0..MAX_METADATA_SIZE + 1).map(|_| "X").collect::<String>()),
        details: Some((0..MAX_METADATA_SIZE + 1).map(|_| "X").collect::<String>()),
    };
    let resp = meta.validate().unwrap_err();
    assert_eq!(
        ContractError::InvalidMetadata {
            data: "identity".to_owned(),
            min: MIN_METADATA_SIZE,
            max: MAX_METADATA_SIZE
        },
        resp
    );

    let meta = ValidatorMetadata {
        identity: Some("identity".to_owned()),
        ..meta
    };
    let resp = meta.validate().unwrap_err();
    assert_eq!(
        ContractError::InvalidMetadata {
            data: "website".to_owned(),
            min: MIN_METADATA_SIZE,
            max: MAX_METADATA_SIZE,
        },
        resp
    );

    let meta = ValidatorMetadata {
        website: Some("https://website".to_owned()),
        ..meta
    };
    let resp = meta.validate().unwrap_err();
    assert_eq!(
        ContractError::InvalidMetadata {
            data: "security_contract".to_owned(),
            min: MIN_METADATA_SIZE,
            max: MAX_METADATA_SIZE,
        },
        resp
    );

    let meta = ValidatorMetadata {
        security_contact: Some("contract".to_owned()),
        ..meta
    };
    let resp = meta.validate().unwrap_err();
    assert_eq!(
        ContractError::InvalidMetadata {
            data: "details".to_owned(),
            min: MIN_METADATA_SIZE,
            max: MAX_METADATA_SIZE,
        },
        resp
    );

    let meta = ValidatorMetadata {
        identity: Some(String::new()),
        website: Some(String::new()),
        security_contact: Some(String::new()),
        details: Some(String::new()),
        ..meta
    };
    let resp = meta.validate().unwrap_err();
    assert_eq!(
        ContractError::InvalidMetadata {
            data: "identity".to_owned(),
            min: MIN_METADATA_SIZE,
            max: MAX_METADATA_SIZE
        },
        resp
    );

    let meta = ValidatorMetadata {
        identity: Some("identity".to_owned()),
        ..meta
    };
    let resp = meta.validate().unwrap_err();
    assert_eq!(
        ContractError::InvalidMetadata {
            data: "website".to_owned(),
            min: MIN_METADATA_SIZE,
            max: MAX_METADATA_SIZE,
        },
        resp
    );

    let meta = ValidatorMetadata {
        website: Some("http://website".to_owned()),
        ..meta
    };
    let resp = meta.validate().unwrap_err();
    assert_eq!(
        ContractError::InvalidMetadata {
            data: "security_contract".to_owned(),
            min: MIN_METADATA_SIZE,
            max: MAX_METADATA_SIZE,
        },
        resp
    );

    let meta = ValidatorMetadata {
        security_contact: Some("contract".to_owned()),
        ..meta
    };
    let resp = meta.validate().unwrap_err();
    assert_eq!(
        ContractError::InvalidMetadata {
            data: "details".to_owned(),
            min: MIN_METADATA_SIZE,
            max: MAX_METADATA_SIZE,
        },
        resp
    );

    let meta = ValidatorMetadata {
        website: Some("website".to_owned()),
        ..meta
    };
    let resp = meta.validate().unwrap_err();
    assert_eq!(ContractError::InvalidMetadataWebsitePrefix {}, resp);
}

#[test]
fn metadata_in_order_is_accepted() {
    let meta = ValidatorMetadata {
        moniker: "abc".to_owned(),
        identity: Some("i".to_owned()),
        website: Some("http://w".to_owned()),
        security_contact: Some("s".to_owned()),
        details: Some("X".repeat(256)),
    };
    meta.validate().unwrap();
}

#[test]
fn moniker_is_measured_in_bytes() {
    let short = ValidatorMetadata {
        moniker: "ab".to_owned(),
        ..ValidatorMetadata::default()
    };
    assert_eq!(
        short.validate().unwrap_err(),
        ContractError::InvalidMetadata {
            data: "moniker".to_owned(),
            min: MIN_MONIKER_LENGTH,
            max: MAX_METADATA_SIZE,
        }
    );
    // two letters of two bytes each have four bytes
    let umlauts = ValidatorMetadata {
        moniker: "\u{e4}\u{f6}".to_owned(),
        ..ValidatorMetadata::default()
    };
    umlauts.validate().unwrap();
    // 129 letters of two bytes each have 258 bytes
    let long = ValidatorMetadata {
        moniker: "\u{e4}".repeat(129),
        ..ValidatorMetadata::default()
    };
    assert!(long.validate().is_err());
}

#[test]
fn keys_of_other_kinds_are_refused() {
    let mut op = valid_operator("foo");
    let bytes = match &op.validator_pubkey {
        Pubkey::Ed25519(b) => b.clone(),
        _ => unreachable!(),
    };
    assert_eq!(bytes.len(), 32);
    op.validator_pubkey = Pubkey::Secp256k1(bytes.clone());
    assert_eq!(op.validate().unwrap_err(), ContractError::InvalidPubkey);
    op.validator_pubkey = Pubkey::Sr25519(bytes.clone());
    assert_eq!(op.validate().unwrap_err(), ContractError::InvalidPubkey);
    let mut longer = bytes.clone();
    longer.push(0);
    op.validator_pubkey = Pubkey::Ed25519(longer);
    assert_eq!(op.validate().unwrap_err(), ContractError::InvalidPubkey);
    op.validator_pubkey = Pubkey::Ed25519(bytes);
    op.validate().unwrap();
}

#[test]
fn ed25519_key_keeps_its_bytes() {
    let bytes: Vec<u8> = (0u8..32).collect();
    let key = Ed25519Pubkey::try_from(&Pubkey::Ed25519(bytes.clone())).unwrap();
    assert_eq!(key.bytes, bytes);
    assert_eq!(key.to_pubkey(), Pubkey::Ed25519(bytes));
    assert!(Ed25519Pubkey::try_from(&Pubkey::Ed25519(vec![1, 2, 3])).is_none());
}

#[test]
fn distribution_ratios_sum_to_at_most_one() {
    let contract = |name: &str, percent: u64| UnvalidatedDistributionContract {
        contract: name.to_owned(),
        ratio: Decimal::percent(percent),
    };
    let ok = UnvalidatedDistributionContracts {
        inner: vec![contract("a", 40), contract("b", 60)],
    };
    assert_eq!(
        ok.validate().unwrap(),
        vec![
            DistributionContract {
                contract: "a".to_owned(),
                ratio: Decimal::percent(40)
            },
            DistributionContract {
                contract: "b".to_owned(),
                ratio: Decimal::percent(60)
            },
        ]
    );
    let too_much = UnvalidatedDistributionContracts {
        inner: vec![contract("a", 40), contract("b", 61)],
    };
    assert_eq!(
        too_much.validate().unwrap_err(),
        ContractError::InvalidRewardsRatio
    );
    let huge = UnvalidatedDistributionContracts {
        inner: vec![
            UnvalidatedDistributionContract {
                contract: "a".to_owned(),
                ratio: Decimal::raw(u128::MAX),
            },
            contract("b", 1),
        ],
    };
    assert_eq!(
        huge.validate().unwrap_err(),
        ContractError::InvalidRewardsRatio
    );
    assert_eq!(
        UnvalidatedDistributionContracts::default().validate().unwrap(),
        vec![]
    );
}

#[test]
fn defaults_of_the_ratios() {
    assert_eq!(default_fee_percentage(), Decimal::zero());
    assert_eq!(default_validators_reward_ratio(), Decimal::one());
    assert_eq!(default_double_sign_slash(), Decimal::percent(50));
    assert_eq!(default_double_sign_slash().atomics, 500_000_000_000_000_000);
}

#[test]
fn jailing_periods() {
    let block = BlockInfo {
        height: 10,
        time: Timestamp::from_seconds(1_000),
    };
    let forever = JailingPeriod::from_duration(JailingDuration::Forever, &block);
    assert_eq!(forever.start, block.time);
    assert!(forever.is_forever());
    assert!(!forever.is_expired(&block));

    let hour = JailingPeriod::from_duration(JailingDuration::Duration(Duration::new(3_600)), &block);
    assert_eq!(
        hour.end,
        JailingEnd::Until(Expiration::at_timestamp(Timestamp::from_seconds(4_600)))
    );
    assert!(!hour.is_forever());
    assert!(!hour.is_expired(&block));
    let later = BlockInfo {
        height: 11,
        time: Timestamp::from_nanos(4_600_000_000_000 - 1),
    };
    assert!(!hour.is_expired(&later));
    let at_end = BlockInfo {
        height: 12,
        time: Timestamp::from_seconds(4_600),
    };
    assert!(hour.is_expired(&at_end));
}

#[test]
fn operator_response_from_info() {
    let bytes: Vec<u8> = vec![7; 32];
    let info = OperatorInfo {
        pubkey: Ed25519Pubkey::try_from(&Pubkey::Ed25519(bytes.clone())).unwrap(),
        metadata: mock_metadata("op"),
        active_validator: true,
    };
    let res = OperatorResponse::from_info(info, "op".to_owned(), None);
    assert_eq!(res.operator, "op");
    assert_eq!(res.pubkey, Pubkey::Ed25519(bytes));
    assert_eq!(res.metadata, mock_metadata("op"));
    assert_eq!(res.jailed_until, None);
    assert!(res.active_validator);
}
