//! The errors that the engines return.

use vstd::prelude::*;

verus! {

/// Why an operation was refused. An operation that returns an error has
/// changed nothing that the host should keep.
#[derive(Clone, Debug, PartialEq, Eq)]
pub enum ContractError {
    /// The sender may not do this; the text says why.
    Unauthorized(String),
    /// The sender is not the admin.
    NotAdmin,
    NoMembersToDistributeTo,
    NoFunds,
    ZeroAmount,
    InvalidDenom,
    /// Funds of another denom were sent; holds the expected denom.
    MissingDenom(String),
    /// More than one coin was sent; holds the expected denom.
    ExtraDenoms(String),
    NothingToClaim,
    /// Nothing is on record under the address.
    NotFound,
    /// A subtraction would have gone below zero; holds minuend and subtrahend.
    Overflow { minuend: u128, subtrahend: u128 },
    InvalidPortion,
    InvalidPubkey,
    DuplicatePubkey,
    AlreadyRegistered,
    OperatorNotFound,
    JailingNotExpired,
    InvalidEpoch,
    InvalidMinPoints,
    InvalidMaxValidators,
    InvalidScaling,
    InvalidRewardDenom,
    InvalidRewardsRatio,
    /// A metadata field is shorter than `min` or longer than `max` bytes.
    InvalidMetadata { data: String, min: usize, max: usize },
    InvalidMetadataWebsitePrefix,
    HookNotRegistered,
    HookAlreadyRegistered,
    /// Holds the address that is no slasher.
    SlasherNotRegistered(String),
    /// Holds the address that is a slasher already.
    SlasherAlreadyRegistered(String),
    NoPreauth,
    UnknownSudoMsg,
}

impl ContractError {
    /// The error is `Unauthorized` with the text `why`.
    pub open spec fn is_unauthorized(self, why: Seq<char>) -> bool {
        match self {
            ContractError::Unauthorized(t) => t@ == why,
            _ => false,
        }
    }
}

} // verus!
