//! A time-locked, secret-gated, vesting fund-release engine.
//!
//! The registry tracks named envelopes of value owed to a beneficiary,
//! releasable only after a correct secret is presented, an absolute unlock
//! time has passed, and a vesting schedule has accrued enough basis points.
//! An owner identity creates envelopes, revokes unclaimed remainders, and
//! reclaims expired-but-unclaimed funds.
//!
//! The engine only computes and records amounts owed; persistent storage,
//! hashing, caller authentication, wall-clock time and the movement of the
//! underlying value are the caller's responsibility. Callers pass the
//! already-authenticated caller identity and the current time explicitly.

pub mod errors;
pub mod vesting;
pub mod envelope;
pub mod registry;
