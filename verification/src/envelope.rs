use vstd::prelude::*;
use crate::errors::Error;
use crate::vesting::{VestSlice, vested_bp, vested_amount_of, lemma_vested_bp_range, lemma_vested_amount_of_bounds};

verus! {

/// A single escrow record: a fixed amount committed to a beneficiary,
/// releasable under a time lock, a secret commitment and a vesting schedule.
#[derive(Debug)]
pub struct Envelope {
    /// Identity authorized to claim.
    pub beneficiary: u64,
    /// Total value committed; strictly positive and fixed for the
    /// envelope's lifetime.
    pub amount: i128,
    /// Commitment the claimer's presented secret must equal.
    pub secret_hash: Vec<u8>,
    /// Absolute time before which no claim may succeed, if set.
    pub unlock_ts: Option<i64>,
    /// Vesting schedule; an empty schedule means fully vested at once.
    pub vesting: Vec<VestSlice>,
    /// Cumulative amount already paid out; never decreases.
    pub claimed: i128,
    /// Absolute time after which the owner may reclaim the remainder, if set.
    pub expiry_ts: Option<i64>,
    /// Once true, no further claims are possible and it never reverts.
    pub revoked: bool,
}

/// Mathematical model of an envelope.
#[verifier::ext_equal]
pub ghost struct EnvelopeView {
    pub beneficiary: u64,
    pub amount: int,
    pub secret_hash: Seq<u8>,
    pub unlock_ts: Option<i64>,
    pub vesting: Seq<VestSlice>,
    pub claimed: int,
    pub expiry_ts: Option<i64>,
    pub revoked: bool,
}

impl View for Envelope {
    type V = EnvelopeView;

    open spec fn view(&self) -> EnvelopeView {
        EnvelopeView {
            beneficiary: self.beneficiary,
            amount: self.amount as int,
            secret_hash: self.secret_hash@,
            unlock_ts: self.unlock_ts,
            vesting: self.vesting@,
            claimed: self.claimed as int,
            expiry_ts: self.expiry_ts,
            revoked: self.revoked,
        }
    }
}

/// Copies a byte string, such as an identifier or a secret commitment.
pub(crate) fn clone_bytes(v: &Vec<u8>) -> (r: Vec<u8>)
    ensures
        r@ == v@,
{
    let mut r: Vec<u8> = Vec::new();
    let mut i: usize = 0;
    while i < v.len()
        invariant
            0 <= i <= v@.len(),
            r@ == v@.take(i as int),
        decreases v@.len() - i,
    {
        r.push(v[i]);
        proof {
            assert(r@ =~= v@.take(i + 1));
        }
        i += 1;
    }
    proof {
        assert(v@.take(v@.len() as int) =~= v@);
    }
    r
}

/// Copies a vesting schedule.
pub(crate) fn clone_slices(v: &Vec<VestSlice>) -> (r: Vec<VestSlice>)
    ensures
        r@ == v@,
{
    let mut r: Vec<VestSlice> = Vec::new();
    let mut i: usize = 0;
    while i < v.len()
        invariant
            0 <= i <= v@.len(),
            r@ == v@.take(i as int),
        decreases v@.len() - i,
    {
        r.push(v[i]);
        proof {
            assert(r@ =~= v@.take(i + 1));
        }
        i += 1;
    }
    proof {
        assert(v@.take(v@.len() as int) =~= v@);
    }
    r
}

impl Clone for Envelope {
    /// The copy models the same envelope.
    fn clone(&self) -> (res: Self)
        ensures
            res@ == self@,
    {
        let res = Envelope {
            beneficiary: self.beneficiary,
            amount: self.amount,
            secret_hash: clone_bytes(&self.secret_hash),
            unlock_ts: self.unlock_ts,
            vesting: clone_slices(&self.vesting),
            claimed: self.claimed,
            expiry_ts: self.expiry_ts,
            revoked: self.revoked,
        };
        proof {
            assert(res@ =~= self@);
        }
        res
    }
}

/// Integrity of a stored envelope: a positive total, and a claimed amount
/// between zero and that total.
pub open spec fn envelope_wf(e: EnvelopeView) -> bool {
    &&& 0 < e.amount
    &&& 0 <= e.claimed <= e.amount
}

/// The record stored by a successful creation: the given fields verbatim,
/// with nothing claimed and not revoked.
pub open spec fn new_envelope_view(
    beneficiary: u64,
    amount: i128,
    secret_hash: Seq<u8>,
    unlock_ts: Option<i64>,
    vesting: Seq<VestSlice>,
    expiry_ts: Option<i64>,
) -> EnvelopeView {
    EnvelopeView {
        beneficiary,
        amount: amount as int,
        secret_hash,
        unlock_ts,
        vesting,
        claimed: 0,
        expiry_ts,
        revoked: false,
    }
}

/// Outcome of a claim attempt on one envelope by `caller`, presenting
/// `secret` at time `now`: an error, or the updated envelope together with
/// the amount newly paid out by this call.
///
/// A claim that brings nothing new to pay succeeds with a zero payout and
/// leaves the envelope exactly as it was.
pub open spec fn claim_outcome(e: EnvelopeView, caller: u64, secret: Seq<u8>, now: int) -> Result<
    (EnvelopeView, int),
    Error,
> {
    if caller != e.beneficiary {
        Err(Error::Unauthorized)
    } else if e.revoked {
        Err(Error::Revoked)
    } else if secret != e.secret_hash {
        Err(Error::InvalidSecret)
    } else if e.unlock_ts matches Some(u) && now < u {
        Err(Error::Locked)
    } else {
        let v = vested_amount_of(e.amount, vested_bp(e.vesting, now));
        if v <= e.claimed {
            Ok((e, 0))
        } else {
            Ok((EnvelopeView { claimed: v, ..e }, v - e.claimed))
        }
    }
}

/// Outcome of an owner revocation of one envelope: an error, or the
/// envelope marked revoked with its claimed amount untouched. The
/// vested-but-unclaimed remainder is forfeited, not paid to either party.
pub open spec fn revoke_outcome(e: EnvelopeView) -> Result<EnvelopeView, Error> {
    if e.revoked {
        Err(Error::AlreadyRevoked)
    } else if e.claimed >= e.amount {
        Err(Error::FullyClaimed)
    } else {
        Ok(EnvelopeView { revoked: true, ..e })
    }
}

/// Outcome of an owner refund of one envelope at time `now`: an error, or
/// the envelope closed (revoked, claimed in full) together with the
/// unclaimed remainder returned to the owner. A refund with nothing left
/// succeeds with a zero payout and leaves the envelope exactly as it was.
pub open spec fn refund_outcome(e: EnvelopeView, now: int) -> Result<(EnvelopeView, int), Error> {
    match e.expiry_ts {
        None => Err(Error::NoExpirySet),
        Some(exp) => if now < exp {
            Err(Error::NotYetExpired)
        } else if e.revoked {
            Err(Error::AlreadyRevoked)
        } else if e.amount - e.claimed <= 0 {
            Ok((e, 0))
        } else {
            Ok((EnvelopeView { revoked: true, claimed: e.amount, ..e }, e.amount - e.claimed))
        },
    }
}

/// Every successful operation keeps the envelope's integrity: the amount
/// stays positive and the claimed amount stays between zero and the amount.
pub proof fn lemma_outcomes_preserve_wf(e: EnvelopeView, caller: u64, secret: Seq<u8>, now: int)
    requires
        envelope_wf(e),
    ensures
        claim_outcome(e, caller, secret, now) matches Ok(p) ==> envelope_wf(p.0),
        revoke_outcome(e) matches Ok(e2) ==> envelope_wf(e2),
        refund_outcome(e, now) matches Ok(p) ==> envelope_wf(p.0),
{
    lemma_vested_bp_range(e.vesting, now);
    lemma_vested_amount_of_bounds(e.amount, vested_bp(e.vesting, now));
}

/// A successful operation never decreases the claimed amount and never
/// clears the revoked flag.
pub proof fn lemma_outcomes_monotone(e: EnvelopeView, caller: u64, secret: Seq<u8>, now: int)
    ensures
        claim_outcome(e, caller, secret, now) matches Ok(p) ==> p.0.claimed >= e.claimed
            && p.0.revoked == e.revoked,
        revoke_outcome(e) matches Ok(e2) ==> e2.claimed == e.claimed && e2.revoked,
        refund_outcome(e, now) matches Ok(p) ==> p.0.claimed >= e.claimed && (e.revoked
            ==> p.0.revoked),
{
}

/// Once an envelope is revoked it stays revoked: every further claim,
/// revocation or refund fails, so no operation ever touches it again and
/// its claimed amount never increases.
pub proof fn lemma_revoked_is_terminal(e: EnvelopeView, caller: u64, secret: Seq<u8>, now: int)
    requires
        e.revoked,
    ensures
        claim_outcome(e, caller, secret, now) is Err,
        revoke_outcome(e) == Err::<EnvelopeView, Error>(Error::AlreadyRevoked),
        refund_outcome(e, now) is Err,
{
}

/// Claiming is idempotent: right after a successful claim, a second claim
/// at the same time succeeds, pays zero, and leaves the envelope unchanged.
pub proof fn lemma_claim_idempotent(e: EnvelopeView, caller: u64, secret: Seq<u8>, now: int)
    requires
        claim_outcome(e, caller, secret, now) is Ok,
    ensures
        claim_outcome(e, caller, secret, now) matches Ok(p) ==> claim_outcome(
            p.0,
            caller,
            secret,
            now,
        ) == Ok::<(EnvelopeView, int), Error>((p.0, 0)),
{
}

/// A claim attempt as a total step: a failed attempt changes nothing and
/// pays nothing.
pub open spec fn claim_step(e: EnvelopeView, caller: u64, secret: Seq<u8>, now: int) -> (
    EnvelopeView,
    int,
) {
    match claim_outcome(e, caller, secret, now) {
        Ok(p) => p,
        Err(_) => (e, 0),
    }
}

/// Runs a sequence of claim attempts at the given times, in order; yields
/// the final envelope and the total amount paid over all attempts.
pub open spec fn run_claims(e: EnvelopeView, caller: u64, secret: Seq<u8>, times: Seq<int>) -> (
    EnvelopeView,
    int,
)
    decreases times.len(),
{
    if times.len() == 0 {
        (e, 0)
    } else {
        let step = claim_step(e, caller, secret, times[0]);
        let rest = run_claims(step.0, caller, secret, times.drop_first());
        (rest.0, step.1 + rest.1)
    }
}

/// Conservation: over any sequence of claim attempts, the total paid out
/// equals the growth of the claimed amount. Failed attempts and idempotent
/// no-ops pay zero, so the sum of the non-zero payouts of an envelope
/// created with nothing claimed is exactly its final claimed amount.
pub proof fn lemma_claim_conservation(e: EnvelopeView, caller: u64, secret: Seq<u8>, times: Seq<int>)
    ensures
        run_claims(e, caller, secret, times).1 == run_claims(e, caller, secret, times).0.claimed
            - e.claimed,
    decreases times.len(),
{
    if times.len() > 0 {
        let step = claim_step(e, caller, secret, times[0]);
        lemma_claim_conservation(step.0, caller, secret, times.drop_first());
    }
}

} // verus!
