//! The messages of the validator engine and the checks that they must pass.

use crate::decimal::{Decimal, DECIMAL_FRACTIONAL};
use crate::error::ContractError;
use crate::keyed::seq_sum;
use crate::stake::claim::{lemma_sum_prefix, lemma_sum_push};
use crate::time::{Duration, Expiration};
use crate::types::{BlockInfo, Coin, Member, Timestamp, NANOS_PER_SECOND};
use crate::valset::state::{
    ed25519_of, DistributionContract, Ed25519Pubkey, OperatorInfo, Pubkey, ValidatorInfo, ValidatorSlashing,
};
use vstd::prelude::*;
use vstd::utf8::encode_utf8;

verus! {

/// How long an operator is jailed.
#[derive(Clone, Copy, Debug, PartialEq, Eq)]
pub enum JailingDuration {
    Duration(Duration),
    Forever,
}

#[derive(Clone, Debug, PartialEq, Eq)]
pub struct InstantiateMsg {
    /// The address that may jail. Nobody may, where `None`.
    pub admin: Option<String>,
    /// The contract whose members and points feed the validator set.
    pub membership: String,
    /// The least points that make an address a candidate.
    pub min_points: u64,
    /// The most validators in the active set.
    pub max_validators: u32,
    /// The seconds in one epoch. The set is computed anew once per epoch.
    pub epoch_length: u64,
    /// The reward paid out at each epoch.
    pub epoch_reward: Coin,
    /// The operators and keys registered from the start.
    pub initial_keys: Vec<OperatorInitInfo>,
    /// The factor from points to voting power.
    pub scaling: Option<u32>,
    /// The part of the accumulated fees that is subtracted from the reward.
    pub fee_percentage: Decimal,
    /// Whether a jailing ends by itself when its time is over.
    pub auto_unjail: bool,
    /// The portion slashed from a validator that signed twice.
    pub double_sign_slash_ratio: Decimal,
    /// The contracts that get a share of the reward; the shares sum to at most one.
    pub distribution_contracts: UnvalidatedDistributionContracts,
    /// The code of the contract that shares the rest out among the validators.
    pub validator_group_code_id: u64,
    /// Whether a validator must sign the first block after joining the set.
    pub verify_validators: bool,
    /// How long a validator is jailed that did not.
    pub offline_jail_duration: Duration,
}

#[derive(Clone, Debug, PartialEq, Eq)]
pub enum ExecuteMsg {
    UpdateAdmin { admin: Option<String> },
    UpdateConfig {
        min_points: Option<u64>,
        max_validators: Option<u32>,
        scaling: Option<u32>,
        epoch_reward: Option<Coin>,
        fee_percentage: Option<Decimal>,
        auto_unjail: Option<bool>,
        double_sign_slash_ratio: Option<Decimal>,
        distribution_contracts: Option<Vec<DistributionContract>>,
        verify_validators: Option<bool>,
        offline_jail_duration: Option<Duration>,
    },
    /// Binds the sender to the consensus key, once and for all.
    RegisterValidatorKey { pubkey: Pubkey, metadata: ValidatorMetadata },
    UpdateMetadata(ValidatorMetadata),
    /// Jails an operator. Only the admin may.
    Jail { operator: String, duration: JailingDuration },
    /// Unjails an operator: the admin anyone at any time, an operator itself when the time is over.
    Unjail { operator: Option<String> },
    Slash { addr: String, portion: Decimal },
}

#[derive(Clone, Debug, PartialEq, Eq)]
pub enum QueryMsg {
    Configuration,
    Epoch,
    Validator { operator: String },
    ListValidators { start_after: Option<String>, limit: Option<u32> },
    ListActiveValidators { start_after: Option<String>, limit: Option<u32> },
    ListJailedValidators { start_after: Option<String>, limit: Option<u32> },
    SimulateActiveValidators,
    ListValidatorSlashing { operator: String },
    Admin,
}

#[derive(Clone, Debug, PartialEq, Eq)]
pub struct UnvalidatedDistributionContract {
    /// The address of the contract, as given.
    pub contract: String,
    /// The part of the reward that goes to the contract.
    pub ratio: Decimal,
}

impl UnvalidatedDistributionContract {
    /// The contract with its ratio, its address taken as it is: whether the
    /// address is one, only the host can tell.
    pub fn validate(&self) -> (r: DistributionContract)
        ensures
            r.contract@ == self.contract@,
            r.ratio == self.ratio,
    {
        DistributionContract { contract: self.contract.clone(), ratio: self.ratio }
    }
}

#[derive(Clone, Debug, PartialEq, Eq)]
pub struct UnvalidatedDistributionContracts {
    pub inner: Vec<UnvalidatedDistributionContract>,
}

/// The ratios of `s`, in atomic units.
pub open spec fn ratios(s: Seq<UnvalidatedDistributionContract>) -> Seq<int> {
    Seq::new(s.len(), |i: int| s[i].ratio.atomics as int)
}

impl UnvalidatedDistributionContracts {
    /// No contracts.
    pub fn default() -> (r: UnvalidatedDistributionContracts)
        ensures
            r.inner@.len() == 0,
    {
        UnvalidatedDistributionContracts { inner: Vec::new() }
    }

    /// The sum of the ratios, in atomic units.
    pub open spec fn sum_ratios(&self) -> int {
        seq_sum(ratios(self.inner@))
    }

    /// Accepts the contracts where their ratios sum to at most one.
    pub fn validate(self) -> (r: Result<Vec<DistributionContract>, ContractError>)
        ensures
            r.is_ok() <==> self.sum_ratios() <= DECIMAL_FRACTIONAL,
            r.is_err() ==> r == Err::<Vec<DistributionContract>, ContractError>(ContractError::InvalidRewardsRatio),
            r.is_ok() ==> r.unwrap()@.len() == self.inner@.len() && forall|i: int|
                0 <= i < self.inner@.len() ==> (#[trigger] r.unwrap()@[i]).contract@ == self.inner@[i].contract@
                    && r.unwrap()@[i].ratio == self.inner@[i].ratio,
    {
        let ghost rs = ratios(self.inner@);
        let mut out: Vec<DistributionContract> = Vec::new();
        let mut sum: u128 = 0;
        let mut i: usize = 0;
        proof {
            assert(rs.take(0) =~= Seq::<int>::empty());
        }
        while i < self.inner.len()
            invariant
                i <= self.inner@.len(),
                rs == ratios(self.inner@),
                sum == seq_sum(rs.take(i as int)),
                sum <= DECIMAL_FRACTIONAL,
                out@.len() == i,
                forall|j: int|
                    0 <= j < i ==> (#[trigger] out@[j]).contract@ == self.inner@[j].contract@ && out@[j].ratio
                        == self.inner@[j].ratio,
            decreases self.inner@.len() - i,
        {
            let c = &self.inner[i];
            proof {
                assert(rs.take(i + 1) =~= rs.take(i as int).push(rs[i as int]));
                lemma_sum_push(rs.take(i as int), rs[i as int]);
                lemma_sum_prefix(rs, i + 1);
            }
            if c.ratio.atomics > DECIMAL_FRACTIONAL - sum {
                return Err(ContractError::InvalidRewardsRatio);
            }
            sum = sum + c.ratio.atomics;
            out.push(c.validate());
            i = i + 1;
        }
        proof {
            assert(rs.take(rs.len() as int) =~= rs);
        }
        Ok(out)
    }
}

pub fn default_fee_percentage() -> (d: Decimal)
    ensures
        d.atomics == 0,
{
    Decimal::zero()
}

pub fn default_validators_reward_ratio() -> (d: Decimal)
    ensures
        d.atomics == DECIMAL_FRACTIONAL,
{
    Decimal::one()
}

pub fn default_double_sign_slash() -> (d: Decimal)
    ensures
        d.atomics == DECIMAL_FRACTIONAL / 2,
{
    Decimal::percent(50)
}

/// What a validator says of itself.
#[derive(Clone, Debug, PartialEq, Eq)]
pub struct ValidatorMetadata {
    /// The validator's name.
    pub moniker: String,
    /// A signature that identifies the validator.
    pub identity: Option<String>,
    /// The validator's website.
    pub website: Option<String>,
    /// An address for reports on security.
    pub security_contact: Option<String>,
    /// Anything else.
    pub details: Option<String>,
}

pub const MIN_MONIKER_LENGTH: usize = 3;

pub const MIN_METADATA_SIZE: usize = 1;

pub const MAX_METADATA_SIZE: usize = 256;

/// The number of bytes of `s` in UTF-8.
pub open spec fn byte_len(s: Seq<char>) -> nat {
    encode_utf8(s).len()
}

/// The bytes of `s` begin with the bytes of `prefix`.
pub open spec fn begins_with(s: Seq<char>, prefix: Seq<char>) -> bool {
    let a = encode_utf8(s);
    let p = encode_utf8(prefix);
    p.len() <= a.len() && a.subrange(0, p.len() as int) == p
}

/// What is wrong with metadata.
pub enum MetadataFault {
    /// The field of this name is shorter than `min` or longer than `max` bytes.
    Size { data: Seq<char>, min: usize, max: usize },
    /// The website begins with neither `https://` nor `http://`.
    WebsitePrefix,
}

/// The optional field is there and is empty or too long.
pub open spec fn bad_size(field: Option<String>) -> bool {
    match field {
        Some(s) => byte_len(s@) < MIN_METADATA_SIZE || byte_len(s@) > MAX_METADATA_SIZE,
        None => false,
    }
}

/// The first fault of the metadata, in the order moniker, identity, website,
/// security contact, details; `None` where the metadata is in order.
pub open spec fn metadata_fault(m: ValidatorMetadata) -> Option<MetadataFault> {
    if byte_len(m.moniker@) < MIN_MONIKER_LENGTH || byte_len(m.moniker@) > MAX_METADATA_SIZE {
        Some(MetadataFault::Size { data: "moniker"@, min: MIN_MONIKER_LENGTH, max: MAX_METADATA_SIZE })
    } else if bad_size(m.identity) {
        Some(MetadataFault::Size { data: "identity"@, min: MIN_METADATA_SIZE, max: MAX_METADATA_SIZE })
    } else if bad_size(m.website) {
        Some(MetadataFault::Size { data: "website"@, min: MIN_METADATA_SIZE, max: MAX_METADATA_SIZE })
    } else if m.website is Some && !begins_with(m.website->0@, "https://"@) && !begins_with(
        m.website->0@,
        "http://"@,
    ) {
        Some(MetadataFault::WebsitePrefix)
    } else if bad_size(m.security_contact) {
        Some(MetadataFault::Size { data: "security_contract"@, min: MIN_METADATA_SIZE, max: MAX_METADATA_SIZE })
    } else if bad_size(m.details) {
        Some(MetadataFault::Size { data: "details"@, min: MIN_METADATA_SIZE, max: MAX_METADATA_SIZE })
    } else {
        None
    }
}

/// The error `e` reports the fault `f`.
pub open spec fn reports(e: ContractError, f: MetadataFault) -> bool {
    match f {
        MetadataFault::Size { data, min, max } => e matches ContractError::InvalidMetadata {
            data: d,
            min: lo,
            max: hi,
        } && d@ == data && lo == min && hi == max,
        MetadataFault::WebsitePrefix => e == ContractError::InvalidMetadataWebsitePrefix,
    }
}

/// Whether the bytes of `s` begin with the bytes of `prefix`.
pub fn has_prefix(s: &str, prefix: &str) -> (r: bool)
    ensures
        r == begins_with(s@, prefix@),
{
    let a = s.as_bytes();
    let p = prefix.as_bytes();
    if p.len() > a.len() {
        return false;
    }
    let mut i: usize = 0;
    while i < p.len()
        invariant
            i <= p@.len(),
            p@.len() <= a@.len(),
            a@ == encode_utf8(s@),
            p@ == encode_utf8(prefix@),
            forall|j: int| 0 <= j < i ==> a@[j] == p@[j],
        decreases p@.len() - i,
    {
        if a[i] != p[i] {
            proof {
                let head = a@.subrange(0, p@.len() as int);
                assert(head[i as int] == a@[i as int]);
                assert(head != p@);
            }
            return false;
        }
        i = i + 1;
    }
    assert(a@.subrange(0, p@.len() as int) =~= p@);
    true
}

/// Whether the optional field is there and is empty or too long.
fn field_bad(field: &Option<String>) -> (r: bool)
    ensures
        r == bad_size(*field),
{
    match field {
        Some(s) => {
            let n = s.as_str().as_bytes().len();
            n < MIN_METADATA_SIZE || n > MAX_METADATA_SIZE
        },
        None => false,
    }
}

fn copy_text(field: &Option<String>) -> (r: Option<String>)
    ensures
        r == *field,
{
    match field {
        Some(s) => Some(s.clone()),
        None => None,
    }
}

fn size_error(data: &str, min: usize) -> (e: ContractError)
    ensures
        reports(e, MetadataFault::Size { data: data@, min, max: MAX_METADATA_SIZE }),
{
    ContractError::InvalidMetadata { data: String::from_str(data), min, max: MAX_METADATA_SIZE }
}

impl ValidatorMetadata {
    /// Metadata with an empty moniker and nothing else.
    pub fn default() -> (m: ValidatorMetadata)
        ensures
            m.moniker@.len() == 0,
            m.identity is None,
            m.website is None,
            m.security_contact is None,
            m.details is None,
    {
        ValidatorMetadata {
            moniker: String::new(),
            identity: None,
            website: None,
            security_contact: None,
            details: None,
        }
    }

    /// A copy of the metadata.
    pub fn clone_metadata(&self) -> (m: ValidatorMetadata)
        ensures
            m == *self,
    {
        ValidatorMetadata {
            moniker: self.moniker.clone(),
            identity: copy_text(&self.identity),
            website: copy_text(&self.website),
            security_contact: copy_text(&self.security_contact),
            details: copy_text(&self.details),
        }
    }

    /// Accepts metadata whose moniker has 3 to 256 bytes, whose other fields,
    /// where they are there, have 1 to 256 bytes, and whose website, where
    /// there is one, begins with `https://` or `http://`. Reports the first
    /// fault otherwise.
    pub fn validate(&self) -> (r: Result<(), ContractError>)
        ensures
            match metadata_fault(*self) {
                Some(f) => r.is_err() && reports(r.unwrap_err(), f),
                None => r.is_ok(),
            },
    {
        let moniker_len = self.moniker.as_str().as_bytes().len();
        if moniker_len < MIN_MONIKER_LENGTH || moniker_len > MAX_METADATA_SIZE {
            return Err(size_error("moniker", MIN_MONIKER_LENGTH));
        }
        if field_bad(&self.identity) {
            return Err(size_error("identity", MIN_METADATA_SIZE));
        }
        if field_bad(&self.website) {
            return Err(size_error("website", MIN_METADATA_SIZE));
        }
        match &self.website {
            Some(website) => {
                if !has_prefix(website.as_str(), "https://") && !has_prefix(website.as_str(), "http://") {
                    return Err(ContractError::InvalidMetadataWebsitePrefix);
                }
            },
            None => {},
        }
        if field_bad(&self.security_contact) {
            return Err(size_error("security_contract", MIN_METADATA_SIZE));
        }
        if field_bad(&self.details) {
            return Err(size_error("details", MIN_METADATA_SIZE));
        }
        Ok(())
    }
}

/// An operator with the consensus key that it registers.
#[derive(Clone, Debug, PartialEq, Eq)]
pub struct OperatorInitInfo {
    pub operator: String,
    pub validator_pubkey: Pubkey,
    pub metadata: ValidatorMetadata,
}

/// What is wrong with a message.
pub enum Fault {
    InvalidEpoch,
    InvalidMinPoints,
    InvalidMaxValidators,
    InvalidScaling,
    InvalidRewardDenom,
    InvalidPubkey,
    Metadata(MetadataFault),
}

/// The error `e` reports the fault `f`.
pub open spec fn reports_fault(e: ContractError, f: Fault) -> bool {
    match f {
        Fault::InvalidEpoch => e == ContractError::InvalidEpoch,
        Fault::InvalidMinPoints => e == ContractError::InvalidMinPoints,
        Fault::InvalidMaxValidators => e == ContractError::InvalidMaxValidators,
        Fault::InvalidScaling => e == ContractError::InvalidScaling,
        Fault::InvalidRewardDenom => e == ContractError::InvalidRewardDenom,
        Fault::InvalidPubkey => e == ContractError::InvalidPubkey,
        Fault::Metadata(m) => reports(e, m),
    }
}

/// The fault of an operator: a key that is no Ed25519 key of 32 bytes, or else the fault of its metadata.
pub open spec fn operator_fault(op: OperatorInitInfo) -> Option<Fault> {
    if ed25519_of(op.validator_pubkey) is None {
        Some(Fault::InvalidPubkey)
    } else {
        match metadata_fault(op.metadata) {
            Some(m) => Some(Fault::Metadata(m)),
            None => None,
        }
    }
}

/// The fault of the first operator in `ops` that has one.
pub open spec fn first_operator_fault(ops: Seq<OperatorInitInfo>) -> Option<Fault>
    decreases ops.len(),
{
    if ops.len() == 0 {
        None
    } else {
        match operator_fault(ops[0]) {
            Some(f) => Some(f),
            None => first_operator_fault(ops.drop_first()),
        }
    }
}

impl OperatorInitInfo {
    /// Accepts an operator whose key is an Ed25519 key of 32 bytes and whose metadata is in order.
    pub fn validate(&self) -> (r: Result<(), ContractError>)
        ensures
            match operator_fault(*self) {
                Some(f) => r.is_err() && reports_fault(r.unwrap_err(), f),
                None => r.is_ok(),
            },
    {
        match Ed25519Pubkey::try_from(&self.validator_pubkey) {
            Some(_) => {},
            None => {
                return Err(ContractError::InvalidPubkey);
            },
        }
        self.metadata.validate()
    }
}

/// The first fault of the message, in the order epoch length, least points,
/// most validators, scaling, denom of the reward, operators.
pub open spec fn instantiate_fault(msg: InstantiateMsg) -> Option<Fault> {
    if msg.epoch_length == 0 {
        Some(Fault::InvalidEpoch)
    } else if msg.min_points == 0 {
        Some(Fault::InvalidMinPoints)
    } else if msg.max_validators == 0 {
        Some(Fault::InvalidMaxValidators)
    } else if msg.scaling == Some(0u32) {
        Some(Fault::InvalidScaling)
    } else if byte_len(msg.epoch_reward.denom@) < 2 || byte_len(msg.epoch_reward.denom@) > 127 {
        Some(Fault::InvalidRewardDenom)
    } else {
        first_operator_fault(msg.initial_keys@)
    }
}

impl InstantiateMsg {
    /// Accepts a message with an epoch of at least a second, at least one
    /// point and one validator, a scaling that is not zero, a denom of 2 to
    /// 127 bytes, and operators that are all in order.
    pub fn validate(&self) -> (r: Result<(), ContractError>)
        ensures
            match instantiate_fault(*self) {
                Some(f) => r.is_err() && reports_fault(r.unwrap_err(), f),
                None => r.is_ok(),
            },
    {
        if self.epoch_length == 0 {
            return Err(ContractError::InvalidEpoch);
        }
        if self.min_points == 0 {
            return Err(ContractError::InvalidMinPoints);
        }
        if self.max_validators == 0 {
            return Err(ContractError::InvalidMaxValidators);
        }
        match self.scaling {
            Some(s) => {
                if s == 0 {
                    return Err(ContractError::InvalidScaling);
                }
            },
            None => {},
        }
        let denom_len = self.epoch_reward.denom.as_str().as_bytes().len();
        if denom_len < 2 || denom_len > 127 {
            return Err(ContractError::InvalidRewardDenom);
        }
        let ghost ops = self.initial_keys@;
        let mut i: usize = 0;
        proof {
            assert(ops.skip(0) =~= ops);
        }
        while i < self.initial_keys.len()
            invariant
                i <= self.initial_keys@.len(),
                ops == self.initial_keys@,
                instantiate_fault(*self) == first_operator_fault(ops),
                first_operator_fault(ops) == first_operator_fault(ops.skip(i as int)),
            decreases self.initial_keys@.len() - i,
        {
            proof {
                assert(ops.skip(i as int)[0] == ops[i as int]);
                assert(ops.skip(i as int).drop_first() =~= ops.skip(i + 1));
            }
            match self.initial_keys[i].validate() {
                Ok(_) => {
                    assert(first_operator_fault(ops.skip(i as int)) == first_operator_fault(ops.skip(i + 1)));
                },
                Err(e) => {
                    assert(first_operator_fault(ops.skip(i as int)) == operator_fault(ops[i as int]));
                    return Err(e);
                },
            }
            i = i + 1;
        }
        assert(first_operator_fault(ops.skip(ops.len() as int)) is None);
        Ok(())
    }
}

#[derive(Clone, Copy, Debug, PartialEq, Eq)]
pub struct EpochResponse {
    /// The seconds in one epoch.
    pub epoch_length: u64,
    /// The number of the current epoch: the time divided by the length, rounded down.
    pub current_epoch: u64,
    /// When the validator set was last updated.
    pub last_update_time: u64,
    pub last_update_height: u64,
    /// The time in seconds at which the next epoch begins.
    pub next_update_time: u64,
}

/// When a jailing ends.
#[derive(Clone, Copy, Debug, PartialEq, Eq)]
pub enum JailingEnd {
    Until(Expiration),
    Forever,
}

/// From when until when an operator is jailed.
#[derive(Clone, Copy, Debug, PartialEq, Eq)]
pub struct JailingPeriod {
    pub start: Timestamp,
    pub end: JailingEnd,
}

impl JailingPeriod {
    /// The period that begins with the block and lasts for `duration`.
    pub fn from_duration(duration: JailingDuration, block: &BlockInfo) -> (p: JailingPeriod)
        requires
            duration matches JailingDuration::Duration(d) ==> d.fits_after(block.time),
        ensures
            p.start == block.time,
            p.end == (match duration {
                JailingDuration::Duration(d) => JailingEnd::Until(
                    Expiration {
                        at: Timestamp { nanos: (block.time.nanos + d.secs * NANOS_PER_SECOND) as u64 },
                    },
                ),
                JailingDuration::Forever => JailingEnd::Forever,
            }),
    {
        JailingPeriod {
            start: block.time,
            end: match duration {
                JailingDuration::Duration(duration) => JailingEnd::Until(duration.after(block)),
                JailingDuration::Forever => JailingEnd::Forever,
            },
        }
    }

    /// Whether the jailing never ends.
    pub fn is_forever(&self) -> (r: bool)
        ensures
            r == (self.end == JailingEnd::Forever),
    {
        match self.end {
            JailingEnd::Forever => true,
            _ => false,
        }
    }

    /// Whether the jailing is over at the time of the block. One that lasts forever never is.
    pub fn is_expired(&self, block: &BlockInfo) -> (r: bool)
        ensures
            r == (match self.end {
                JailingEnd::Forever => false,
                JailingEnd::Until(expires) => block.time.nanos >= expires.at.nanos,
            }),
    {
        match self.end {
            JailingEnd::Forever => false,
            JailingEnd::Until(expires) => expires.is_expired(block),
        }
    }
}

/// What is on record for one operator, as a query answers it.
#[derive(Clone, Debug, PartialEq, Eq)]
pub struct OperatorResponse {
    pub operator: String,
    pub pubkey: Pubkey,
    pub metadata: ValidatorMetadata,
    pub jailed_until: Option<JailingPeriod>,
    pub active_validator: bool,
}

impl OperatorResponse {
    pub fn from_info(info: OperatorInfo, operator: String, jailed_until: Option<JailingPeriod>) -> (r:
        OperatorResponse)
        ensures
            r.operator == operator,
            r.pubkey matches Pubkey::Ed25519(d) && d@ == info.pubkey.bytes@,
            r.metadata == info.metadata,
            r.jailed_until == jailed_until,
            r.active_validator == info.active_validator,
    {
        OperatorResponse {
            operator,
            pubkey: info.pubkey.to_pubkey(),
            metadata: info.metadata,
            jailed_until,
            active_validator: info.active_validator,
        }
    }
}

#[derive(Clone, Debug, PartialEq, Eq)]
pub struct ValidatorResponse {
    /// `None` where no validator is registered.
    pub validator: Option<OperatorResponse>,
}

#[derive(Clone, Debug, PartialEq, Eq)]
pub struct ListValidatorResponse {
    pub validators: Vec<OperatorResponse>,
}

#[derive(Clone, Debug, PartialEq, Eq)]
pub struct ListActiveValidatorsResponse {
    pub validators: Vec<ValidatorInfo>,
}

#[derive(Clone, Debug, PartialEq, Eq)]
pub struct ListValidatorSlashingResponse {
    pub addr: String,
    /// The height at which the validator first joined the set.
    pub start_height: u64,
    pub slashing: Vec<ValidatorSlashing>,
    /// Whether the validator is jailed forever.
    pub tombstoned: bool,
    /// When the jailing ends, where the validator is jailed.
    pub jailed_until: Option<Expiration>,
}

/// What the engine sends to a distribution contract with its share of the reward.
#[derive(Clone, Copy, Debug, PartialEq, Eq)]
pub enum DistributionMsg {
    DistributeRewards,
}

#[derive(Clone, Debug, PartialEq, Eq)]
pub struct RewardsInstantiateMsg {
    pub admin: String,
    pub denom: String,
    pub members: Vec<Member>,
}

#[derive(Clone, Debug, PartialEq, Eq)]
pub enum RewardsDistribution {
    UpdateMembers { remove: Vec<String>, add: Vec<Member> },
    DistributeRewards,
}

#[derive(Clone, Debug, PartialEq, Eq)]
pub struct InstantiateResponse {
    pub validator_group: String,
}

#[derive(Clone, Debug, PartialEq, Eq)]
pub struct MigrateMsg {
    pub min_points: Option<u64>,
    pub max_validators: Option<u32>,
    pub distribution_contracts: Option<Vec<DistributionContract>>,
    pub verify_validators: Option<bool>,
}

} // verus!
