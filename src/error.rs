//! Errors of scheme construction and of signing.

use vstd::prelude::*;

verus! {

/// A multisig configuration that breaks one of its construction rules.
#[derive(Clone, Copy, Debug, PartialEq, Eq, Structural)]
pub enum ConfigError {
    /// The identity list holds no hash.
    EmptyIdentityList,
    /// The identity list holds more hashes than a one-byte count can give.
    TooManyIdentities,
    /// The same hash appears twice in the identity list.
    DuplicateIdentity,
    /// The threshold exceeds the number of identities.
    ThresholdTooLarge,
    /// More leading signatures are required than the threshold.
    RequireFirstNTooLarge,
    /// The lock script at this position is not a sighash lock.
    NotSighashAddress(usize),
}

/// Why a signing operation stopped.
#[derive(Clone, Copy, Debug, PartialEq, Eq, Structural)]
pub enum SignError {
    /// The lock field's length is not the one the scheme prescribes.
    MalformedWitness,
    /// A supplied key matches none of the scheme's identities.
    IdentityMismatch,
    /// A script group refers to a witness the transaction does not have.
    UnlockError,
    /// The lock field is fully signed while a script group is still locked.
    InconsistentState,
    /// The scheme itself is invalid.
    Config(ConfigError),
}

} // verus!
