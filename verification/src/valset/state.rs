//! What the validator engine keeps on record.

use crate::controllers::Admin;
use crate::decimal::{Decimal, DECIMAL_FRACTIONAL};
use crate::keyed::AddrMap;
use crate::text::{side_of_bytes, Side};
use crate::time::Duration;
use crate::types::{Coin, Timestamp, NANOS_PER_SECOND};
use crate::valset::msg::{JailingEnd, JailingPeriod, ValidatorMetadata};
use vstd::prelude::*;

verus! {

/// The number of bytes in an Ed25519 public key.
pub const ED25519_PUBKEY_LENGTH: usize = 32;

/// A consensus key as a message carries it: a kind and its bytes, unchecked.
#[derive(Clone, Debug, PartialEq, Eq)]
pub enum Pubkey {
    Ed25519(Vec<u8>),
    Secp256k1(Vec<u8>),
    Sr25519(Vec<u8>),
}

/// The bytes of `key`, where it is an Ed25519 key of the right length.
pub open spec fn ed25519_of(key: Pubkey) -> Option<Seq<u8>> {
    match key {
        Pubkey::Ed25519(data) => if data@.len() == ED25519_PUBKEY_LENGTH {
            Some(data@)
        } else {
            None
        },
        _ => None,
    }
}

/// An Ed25519 public key: exactly 32 bytes.
#[derive(Clone, Debug, PartialEq, Eq)]
pub struct Ed25519Pubkey {
    pub bytes: Vec<u8>,
}

/// `Ed25519Pubkey::try_from(&Pubkey)` of tg_bindings, read through `to_vec`:
/// the bytes of an Ed25519 key of 32 bytes; nothing for a key of another kind
/// or another length.
#[verifier::external_body]
fn checked_ed25519(key: &Pubkey) -> (r: Option<Vec<u8>>)
    ensures
        match r {
            Some(b) => ed25519_of(*key) == Some(b@),
            None => ed25519_of(*key) is None,
        },
{
    let outside = match key {
        Pubkey::Ed25519(d) => tg_bindings::Pubkey::Ed25519(cosmwasm_std::Binary(d.clone())),
        Pubkey::Secp256k1(d) => tg_bindings::Pubkey::Secp256k1(cosmwasm_std::Binary(d.clone())),
        Pubkey::Sr25519(d) => tg_bindings::Pubkey::Sr25519(cosmwasm_std::Binary(d.clone())),
    };
    match tg_bindings::Ed25519Pubkey::try_from(&outside) {
        Ok(k) => Some(k.to_vec()),
        Err(_) => None,
    }
}

impl Ed25519Pubkey {
    /// The key has 32 bytes.
    pub open spec fn wf(&self) -> bool {
        self.bytes@.len() == ED25519_PUBKEY_LENGTH
    }

    /// The Ed25519 key that `key` holds, if it holds one of the right length.
    pub fn try_from(key: &Pubkey) -> (r: Option<Ed25519Pubkey>)
        ensures
            match r {
                Some(k) => k.wf() && ed25519_of(*key) == Some(k.bytes@),
                None => ed25519_of(*key) is None,
            },
    {
        match checked_ed25519(key) {
            Some(bytes) => Some(Ed25519Pubkey { bytes }),
            None => None,
        }
    }

    /// The key as a message carries it.
    pub fn to_pubkey(&self) -> (r: Pubkey)
        ensures
            r matches Pubkey::Ed25519(d) && d@ == self.bytes@,
    {
        Pubkey::Ed25519(self.bytes.clone())
    }
}

/// A contract that gets a share of every epoch's reward for further distribution.
#[derive(Clone, Debug, PartialEq, Eq)]
pub struct DistributionContract {
    pub contract: String,
    /// The part of the reward that goes to the contract.
    pub ratio: Decimal,
}

/// What is on record for one operator.
#[derive(Clone, Debug, PartialEq, Eq)]
pub struct OperatorInfo {
    pub pubkey: Ed25519Pubkey,
    pub metadata: ValidatorMetadata,
    /// Whether the operator is in the active set.
    pub active_validator: bool,
}

/// An operator in the active set, with its power.
#[derive(Clone, Debug, PartialEq, Eq)]
pub struct ValidatorInfo {
    pub operator: String,
    pub validator_pubkey: Pubkey,
    pub power: u64,
}

/// One slashing of a validator.
#[derive(Clone, Copy, Debug, PartialEq, Eq)]
pub struct ValidatorSlashing {
    pub slash_height: u64,
    pub portion: Decimal,
}


/// The kind of a consensus key.
pub enum KeyKind {
    Ed25519,
    Secp256k1,
    Sr25519,
}

pub struct PubkeyView {
    pub kind: KeyKind,
    pub bytes: Seq<u8>,
}

impl View for Pubkey {
    type V = PubkeyView;

    open spec fn view(&self) -> PubkeyView {
        match self {
            Pubkey::Ed25519(d) => PubkeyView { kind: KeyKind::Ed25519, bytes: d@ },
            Pubkey::Secp256k1(d) => PubkeyView { kind: KeyKind::Secp256k1, bytes: d@ },
            Pubkey::Sr25519(d) => PubkeyView { kind: KeyKind::Sr25519, bytes: d@ },
        }
    }
}

/// Whether the two byte strings are the same.
pub fn same_bytes(a: &Vec<u8>, b: &Vec<u8>) -> (r: bool)
    ensures
        r == (a@ == b@),
{
    match side_of_bytes(a.as_slice(), b.as_slice()) {
        Side::Same => true,
        Side::Before => {
            proof {
                crate::text::lemma_bytes_before_irreflexive(a@);
            }
            false
        },
        Side::After => {
            proof {
                crate::text::lemma_bytes_before_irreflexive(a@);
            }
            false
        },
    }
}

impl Pubkey {
    /// Whether the two keys are of the same kind and hold the same bytes.
    pub fn same_as(&self, other: &Pubkey) -> (r: bool)
        ensures
            r == (self@ == other@),
    {
        match (self, other) {
            (Pubkey::Ed25519(a), Pubkey::Ed25519(b)) => same_bytes(a, b),
            (Pubkey::Secp256k1(a), Pubkey::Secp256k1(b)) => same_bytes(a, b),
            (Pubkey::Sr25519(a), Pubkey::Sr25519(b)) => same_bytes(a, b),
            _ => false,
        }
    }

    /// A copy of the key.
    pub fn duplicate(&self) -> (r: Pubkey)
        ensures
            r@ == self@,
    {
        match self {
            Pubkey::Ed25519(d) => Pubkey::Ed25519(d.clone()),
            Pubkey::Secp256k1(d) => Pubkey::Secp256k1(d.clone()),
            Pubkey::Sr25519(d) => Pubkey::Sr25519(d.clone()),
        }
    }
}

pub struct ValidatorView {
    pub operator: Seq<char>,
    pub pubkey: PubkeyView,
    pub power: u64,
}

impl View for ValidatorInfo {
    type V = ValidatorView;

    open spec fn view(&self) -> ValidatorView {
        ValidatorView { operator: self.operator@, pubkey: self.validator_pubkey@, power: self.power }
    }
}

impl ValidatorInfo {
    /// A copy of the validator.
    pub fn duplicate(&self) -> (r: ValidatorInfo)
        ensures
            r@ == self@,
    {
        ValidatorInfo {
            operator: self.operator.clone(),
            validator_pubkey: self.validator_pubkey.duplicate(),
            power: self.power,
        }
    }

    /// Whether the two are the same operator with the same key and power.
    pub fn same_as(&self, other: &ValidatorInfo) -> (r: bool)
        ensures
            r == (self@ == other@),
    {
        self.operator == other.operator && self.power == other.power && self.validator_pubkey.same_as(
            &other.validator_pubkey,
        )
    }
}

/// A change of the consensus set: the key of a validator with its new power; zero takes it out.
#[derive(Clone, Debug, PartialEq, Eq)]
pub struct ValidatorUpdate {
    pub pubkey: Pubkey,
    pub power: u64,
}

pub struct UpdateView {
    pub pubkey: PubkeyView,
    pub power: u64,
}

impl View for ValidatorUpdate {
    type V = UpdateView;

    open spec fn view(&self) -> UpdateView {
        UpdateView { pubkey: self.pubkey@, power: self.power }
    }
}

/// The changes that take the consensus set from one epoch to the next.
#[derive(Clone, Debug, PartialEq, Eq)]
pub struct ValidatorDiff {
    pub diffs: Vec<ValidatorUpdate>,
}

/// The settings of the validator engine.
#[derive(Clone, Debug, PartialEq, Eq)]
pub struct Config {
    /// The contract whose members and points feed the validator set.
    pub membership: String,
    /// The least points that make an address a candidate; at least one.
    pub min_points: u64,
    /// The most validators in the active set; at least one.
    pub max_validators: u32,
    /// The factor from points to voting power; one where `None`.
    pub scaling: Option<u32>,
    /// The reward of one epoch.
    pub epoch_reward: Coin,
    /// The part of the accumulated fees that is subtracted from the reward; at most one.
    pub fee_percentage: Decimal,
    /// Whether a jailing ends by itself when its time is over.
    pub auto_unjail: bool,
    /// The portion slashed from a validator that signed twice.
    pub double_sign_slash_ratio: Decimal,
    /// The contracts that get a share of the reward; the shares sum to at most one.
    pub distribution_contracts: Vec<DistributionContract>,
    /// The contract that shares the rest out among the validators.
    pub validator_group: String,
    /// Whether a validator must sign the first block after joining the set.
    pub verify_validators: bool,
    /// How long a validator is jailed that did not.
    pub offline_jail_duration: Duration,
}

/// The epoch that the engine is in, and when it last computed the set.
#[derive(Clone, Copy, Debug, PartialEq, Eq)]
pub struct EpochInfo {
    /// The seconds in one epoch; at least one.
    pub epoch_length: u64,
    /// The number of the epoch of the last computation.
    pub current_epoch: u64,
    /// The time of the last computation, in seconds.
    pub last_update_time: u64,
    /// The height of the last computation.
    pub last_update_height: u64,
}

/// All that the validator engine keeps.
#[derive(Clone, Debug, PartialEq, Eq)]
pub struct Valset {
    pub admin: Admin,
    pub config: Config,
    pub epoch: EpochInfo,
    /// The operators with their keys, by address.
    pub operators: AddrMap<OperatorInfo>,
    /// The operators that are jailed.
    pub jail: AddrMap<JailingPeriod>,
    /// The active set, from the highest rank down.
    pub validators: Vec<ValidatorInfo>,
    /// The operators that joined the set at the last computation and have yet to sign a block.
    pub pending: Vec<String>,
}

/// The ratios of `s`, in atomic units.
pub open spec fn contract_ratios(s: Seq<DistributionContract>) -> Seq<int> {
    Seq::new(s.len(), |i: int| s[i].ratio.atomics as int)
}

/// The factor from points to power: one where none is set.
pub open spec fn scale_of(scaling: Option<u32>) -> int {
    match scaling {
        Some(s) => s as int,
        None => 1,
    }
}

/// The epoch to which the time `time` belongs: the seconds divided by the length, rounded down.
pub open spec fn epoch_at(time: Timestamp, epoch_length: u64) -> int {
    (time.nanos / NANOS_PER_SECOND) as int / (epoch_length as int)
}

/// The jailing `j` is over at the time `now`; one that lasts forever never is.
pub open spec fn jailing_over(j: JailingPeriod, now: u64) -> bool {
    match j.end {
        JailingEnd::Forever => false,
        JailingEnd::Until(e) => now >= e.at.nanos,
    }
}

impl Valset {
    /// The maps are in order, every key on record has 32 bytes, no two
    /// operators hold the same key, and the settings are in their ranges.
    pub open spec fn wf(&self) -> bool {
        &&& self.operators.wf()
        &&& self.jail.wf()
        &&& self.epoch.epoch_length >= 1
        &&& self.config.min_points >= 1
        &&& self.config.max_validators >= 1
        &&& self.config.scaling != Some(0u32)
        &&& self.config.fee_percentage.atomics <= DECIMAL_FRACTIONAL
        &&& crate::keyed::seq_sum(contract_ratios(self.config.distribution_contracts@)) <= DECIMAL_FRACTIONAL
        &&& forall|a: Seq<char>| #[trigger]
            self.operators@.contains_key(a) ==> self.operators@[a].pubkey.wf()
        &&& forall|a: Seq<char>, b: Seq<char>|
            self.operators@.contains_key(a) && self.operators@.contains_key(b) && a != b ==> (
            #[trigger] self.operators@[a]).pubkey.bytes@ != (#[trigger] self.operators@[b]).pubkey.bytes@
    }

    /// The operator `addr` counts as jailed at the time `now`: a jailing is
    /// on record for it and, where jailings end by themselves, is not over.
    pub open spec fn jailed(&self, addr: Seq<char>, now: u64) -> bool {
        self.jail@.contains_key(addr) && !(self.config.auto_unjail && jailing_over(self.jail@[addr], now))
    }
}

} // verus!
