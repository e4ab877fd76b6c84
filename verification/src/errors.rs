use vstd::prelude::*;

verus! {

/// Reason an operation on the registry was refused. Every precondition
/// violation surfaces to the caller as one distinct variant; a failed call
/// has no effect on the registry.
#[derive(Clone, Copy, Debug, PartialEq, Eq, Structural)]
pub enum Error {
    /// `initialize` was called a second time.
    AlreadyInitialized,
    /// The caller is not the identity the operation requires.
    Unauthorized,
    /// An envelope was created with a non-positive amount.
    InvalidAmount,
    /// An envelope with the same identifier already exists.
    DuplicateEnvelope,
    /// No envelope with the given identifier exists.
    NotFound,
    /// The envelope was revoked; no further claims are possible.
    Revoked,
    /// The presented secret does not match the envelope's commitment.
    InvalidSecret,
    /// The envelope's unlock time has not yet passed.
    Locked,
    /// The envelope was already revoked or refunded.
    AlreadyRevoked,
    /// Nothing is left to revoke: the envelope was claimed in full.
    FullyClaimed,
    /// The envelope has no expiry time, so it cannot be refunded.
    NoExpirySet,
    /// The envelope's expiry time has not yet passed.
    NotYetExpired,
}

} // verus!
