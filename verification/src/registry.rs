use vstd::prelude::*;
use vstd::pervasive::VecAdditionalExecFns;
use crate::envelope::{
    Envelope, EnvelopeView, claim_outcome, clone_bytes, envelope_wf, new_envelope_view,
    refund_outcome, revoke_outcome,
};
use crate::errors::Error;
use crate::vesting::{VestSlice, vested_amount, vested_fraction};

verus! {

/// One registry slot: an envelope stored under its identifier.
pub struct EnvelopeEntry {
    pub id: Vec<u8>,
    pub env: Envelope,
}

/// The identifiers of the entries are pairwise distinct.
pub open spec fn ids_unique(s: Seq<EnvelopeEntry>) -> bool {
    forall|i: int, j: int| 0 <= i < j < s.len() ==> s[i].id@ != s[j].id@
}

/// Some entry of `s` carries the identifier `k`.
pub open spec fn has_id(s: Seq<EnvelopeEntry>, k: Seq<u8>) -> bool {
    exists|i: int| 0 <= i < s.len() && s[i].id@ == k
}

/// The registry a sequence of entries denotes: a map from identifier to
/// envelope model.
pub open spec fn entries_map(s: Seq<EnvelopeEntry>) -> Map<Seq<u8>, EnvelopeView>
    decreases s.len(),
{
    if s.len() == 0 {
        Map::empty()
    } else {
        entries_map(s.drop_last()).insert(s.last().id@, s.last().env@)
    }
}

/// With distinct identifiers, the denoted map holds exactly the entries'
/// identifiers, each mapped to its own envelope.
pub proof fn lemma_entries_map_properties(s: Seq<EnvelopeEntry>)
    requires
        ids_unique(s),
    ensures
        forall|k: Seq<u8>| #[trigger] entries_map(s).contains_key(k) <==> has_id(s, k),
        forall|i: int|
            0 <= i < s.len() ==> entries_map(s)[#[trigger] s[i].id@] == s[i].env@,
    decreases s.len(),
{
    if s.len() > 0 {
        let prefix = s.drop_last();
        assert(ids_unique(prefix));
        lemma_entries_map_properties(prefix);
        assert forall|k: Seq<u8>| #[trigger] entries_map(s).contains_key(k) implies has_id(
            s,
            k,
        ) by {
            if k == s.last().id@ {
                assert(s[s.len() - 1].id@ == k);
            } else {
                assert(entries_map(prefix).contains_key(k));
                assert(has_id(prefix, k));
                let w: int = choose|w: int| 0 <= w < prefix.len() && prefix[w].id@ == k;
                assert(s[w].id@ == k);
            }
        }
        assert forall|k: Seq<u8>| has_id(s, k) implies #[trigger] entries_map(s).contains_key(
            k,
        ) by {
            let w: int = choose|w: int| 0 <= w < s.len() && s[w].id@ == k;
            if w < s.len() - 1 {
                assert(prefix[w].id@ == k);
                assert(has_id(prefix, k));
            }
        }
        assert forall|i: int| 0 <= i < s.len() implies entries_map(s)[#[trigger] s[i].id@]
            == s[i].env@ by {
            if i < s.len() - 1 {
                assert(prefix[i] == s[i]);
                assert(entries_map(prefix)[prefix[i].id@] == prefix[i].env@);
                assert(s[i].id@ != s.last().id@);
            }
        }
    }
}

/// Appending an entry denotes inserting its envelope under its identifier.
pub proof fn lemma_entries_map_push(s: Seq<EnvelopeEntry>, e: EnvelopeEntry)
    ensures
        entries_map(s.push(e)) == entries_map(s).insert(e.id@, e.env@),
{
    assert(s.push(e).drop_last() =~= s);
    assert(s.push(e).last() == e);
}

/// Replacing the entry that carries an identifier denotes inserting the
/// replacement's envelope under that identifier.
pub proof fn lemma_entries_map_update(s: Seq<EnvelopeEntry>, i: int, e: EnvelopeEntry)
    requires
        ids_unique(s),
        0 <= i < s.len(),
        e.id@ == s[i].id@,
    ensures
        entries_map(s.update(i, e)) == entries_map(s).insert(e.id@, e.env@),
    decreases s.len(),
{
    let t = s.update(i, e);
    if i == s.len() - 1 {
        assert(t.drop_last() =~= s.drop_last());
        assert(t.last() == e);
        assert(entries_map(t) =~= entries_map(s).insert(e.id@, e.env@));
    } else {
        let prefix = s.drop_last();
        assert(ids_unique(prefix));
        assert(prefix[i] == s[i]);
        lemma_entries_map_update(prefix, i, e);
        assert(t.drop_last() =~= prefix.update(i, e));
        assert(t.last() == s.last());
        assert(e.id@ != s.last().id@);
        assert(entries_map(t) =~= entries_map(s).insert(e.id@, e.env@));
    }
}

/// Round trip: the record a successful creation stores under `id`, read
/// back from the registry map, carries exactly the given fields, with
/// nothing claimed and not revoked.
pub proof fn lemma_create_get_round_trip(
    m: Map<Seq<u8>, EnvelopeView>,
    id: Seq<u8>,
    beneficiary: u64,
    amount: i128,
    secret_hash: Seq<u8>,
    unlock_ts: Option<i64>,
    vesting: Seq<VestSlice>,
    expiry_ts: Option<i64>,
)
    ensures
        m.insert(
            id,
            new_envelope_view(beneficiary, amount, secret_hash, unlock_ts, vesting, expiry_ts),
        ).contains_key(id),
        m.insert(
            id,
            new_envelope_view(beneficiary, amount, secret_hash, unlock_ts, vesting, expiry_ts),
        )[id] == new_envelope_view(
            beneficiary,
            amount,
            secret_hash,
            unlock_ts,
            vesting,
            expiry_ts,
        ),
        new_envelope_view(
            beneficiary,
            amount,
            secret_hash,
            unlock_ts,
            vesting,
            expiry_ts,
        ) == (EnvelopeView {
            beneficiary,
            amount: amount as int,
            secret_hash,
            unlock_ts,
            vesting,
            claimed: 0,
            expiry_ts,
            revoked: false,
        }),
{
}

/// Index of the entry that carries `id`, if any.
fn find_entry(entries: &Vec<EnvelopeEntry>, id: &Vec<u8>) -> (r: Option<usize>)
    ensures
        match r {
            Some(i) => i < entries@.len() && entries@[i as int].id@ == id@,
            None => !has_id(entries@, id@),
        },
{
    let mut i: usize = 0;
    while i < entries.len()
        invariant
            0 <= i <= entries@.len(),
            forall|j: int| 0 <= j < i ==> entries@[j].id@ != id@,
        decreases entries@.len() - i,
    {
        if bytes_eq(&entries[i].id, id) {
            return Some(i);
        }
        i += 1;
    }
    None
}

/// Byte-for-byte equality of two identifiers or secrets.
fn bytes_eq(a: &Vec<u8>, b: &Vec<u8>) -> (r: bool)
    ensures
        r == (a@ == b@),
{
    if a.len() != b.len() {
        return false;
    }
    let mut i: usize = 0;
    while i < a.len()
        invariant
            a@.len() == b@.len(),
            0 <= i <= a@.len(),
            forall|j: int| 0 <= j < i ==> a@[j] == b@[j],
        decreases a@.len() - i,
    {
        if a[i] != b[i] {
            return false;
        }
        i += 1;
    }
    proof {
        assert(a@ =~= b@);
    }
    true
}

/// The envelope registry with its one-time configuration: the owner
/// identity that may create, revoke and refund envelopes, the inert
/// recovery configuration, and the envelopes themselves.
///
/// Persistent storage, hashing, caller authentication and time are the
/// surrounding layer's business: every operation takes the
/// already-authenticated caller identity, and the time-dependent ones take
/// the current time, as explicit arguments.
pub struct Contract {
    pub owner: Option<u64>,
    pub guardians: Vec<u64>,
    pub recovery_threshold: u32,
    pub recovery_delay: u64,
    pub entries: Vec<EnvelopeEntry>,
}

impl Contract {
    /// Map from identifier to envelope model that the registry holds.
    pub open spec fn env_map(self) -> Map<Seq<u8>, EnvelopeView> {
        entries_map(self.entries@)
    }

    /// Registry integrity: distinct identifiers, every envelope well-formed.
    pub open spec fn wf(self) -> bool {
        &&& ids_unique(self.entries@)
        &&& forall|i: int|
            0 <= i < self.entries@.len() ==> envelope_wf(#[trigger] self.entries@[i].env@)
    }

    /// The one-time setup has run.
    pub open spec fn initialized(self) -> bool {
        self.owner is Some
    }

    /// `caller` is the registered owner.
    pub open spec fn is_owner(self, caller: u64) -> bool {
        self.owner == Some(caller)
    }

    /// The configuration written by `initialize` is the same in both states.
    pub open spec fn same_config(self, other: Contract) -> bool {
        &&& self.owner == other.owner
        &&& self.guardians@ == other.guardians@
        &&& self.recovery_threshold == other.recovery_threshold
        &&& self.recovery_delay == other.recovery_delay
    }

    /// An empty registry that has not been initialized yet.
    pub fn new() -> (c: Contract)
        ensures
            c.wf(),
            !c.initialized(),
            c.env_map() == Map::<Seq<u8>, EnvelopeView>::empty(),
            c.guardians@ == Seq::<u64>::empty(),
            c.recovery_threshold == 0,
            c.recovery_delay == 0,
    {
        Contract {
            owner: None,
            guardians: Vec::new(),
            recovery_threshold: 0,
            recovery_delay: 0,
            entries: Vec::new(),
        }
    }

    /// One-time setup: registers the owner identity and the recovery
    /// configuration and starts with an empty envelope registry. Fails,
    /// with no effect, if the setup already ran.
    pub fn initialize(
        &mut self,
        owner: u64,
        guardians: Vec<u64>,
        recovery_threshold: u32,
        recovery_delay: u64,
    ) -> (r: Result<(), Error>)
        requires
            old(self).wf(),
        ensures
            final(self).wf(),
            old(self).initialized() ==> r == Err::<(), Error>(Error::AlreadyInitialized)
                && *final(self) == *old(self),
            !old(self).initialized() ==> {
                &&& r == Ok::<(), Error>(())
                &&& final(self).owner == Some(owner)
                &&& final(self).guardians@ == guardians@
                &&& final(self).recovery_threshold == recovery_threshold
                &&& final(self).recovery_delay == recovery_delay
                &&& final(self).env_map() == Map::<Seq<u8>, EnvelopeView>::empty()
            },
    {
        if self.owner.is_some() {
            return Err(Error::AlreadyInitialized);
        }
        self.owner = Some(owner);
        self.guardians = guardians;
        self.recovery_threshold = recovery_threshold;
        self.recovery_delay = recovery_delay;
        self.entries = Vec::new();
        Ok(())
    }

    /// Creates an envelope under `envelope_id` with the given fields
    /// verbatim, nothing claimed and not revoked. Only the owner may
    /// create; the amount must be positive and the identifier unused.
    /// On failure the registry is untouched.
    pub fn create_envelope(
        &mut self,
        caller: u64,
        envelope_id: Vec<u8>,
        beneficiary: u64,
        amount: i128,
        secret_hash: Vec<u8>,
        unlock_ts: Option<i64>,
        vesting: Vec<VestSlice>,
        expiry_ts: Option<i64>,
    ) -> (r: Result<(), Error>)
        requires
            old(self).wf(),
        ensures
            final(self).wf(),
            old(self).same_config(*final(self)),
            !old(self).is_owner(caller) ==> r == Err::<(), Error>(Error::Unauthorized)
                && *final(self) == *old(self),
            old(self).is_owner(caller) && amount <= 0 ==> r == Err::<(), Error>(
                Error::InvalidAmount,
            ) && *final(self) == *old(self),
            old(self).is_owner(caller) && amount > 0 && old(self).env_map().contains_key(
                envelope_id@,
            ) ==> r == Err::<(), Error>(Error::DuplicateEnvelope) && *final(self) == *old(self),
            old(self).is_owner(caller) && amount > 0 && !old(self).env_map().contains_key(
                envelope_id@,
            ) ==> r == Ok::<(), Error>(()) && final(self).env_map() == old(
                self,
            ).env_map().insert(
                envelope_id@,
                new_envelope_view(beneficiary, amount, secret_hash@, unlock_ts, vesting@, expiry_ts),
            ),
    {
        proof {
            lemma_entries_map_properties(self.entries@);
        }
        let authorized: bool = match self.owner {
            Some(o) => o == caller,
            None => false,
        };
        if !authorized {
            return Err(Error::Unauthorized);
        }
        if amount <= 0 {
            return Err(Error::InvalidAmount);
        }
        if find_entry(&self.entries, &envelope_id).is_some() {
            return Err(Error::DuplicateEnvelope);
        }
        let ghost old_entries = self.entries@;
        let env = Envelope {
            beneficiary,
            amount,
            secret_hash,
            unlock_ts,
            vesting,
            claimed: 0,
            expiry_ts,
            revoked: false,
        };
        let entry = EnvelopeEntry { id: envelope_id, env };
        proof {
            lemma_entries_map_push(old_entries, entry);
        }
        self.entries.push(entry);
        proof {
            assert forall|i: int, j: int|
                0 <= i < j < self.entries@.len() implies self.entries@[i].id@
                != self.entries@[j].id@ by {
                if j < self.entries@.len() - 1 {
                    assert(old_entries[i].id@ != old_entries[j].id@);
                } else {
                    assert(self.entries@[i] == old_entries[i]);
                }
            }
            assert(final(self).env_map() =~= old(self).env_map().insert(
                envelope_id@,
                new_envelope_view(beneficiary, amount, secret_hash@, unlock_ts, vesting@, expiry_ts),
            ));
        }
        Ok(())
    }

    /// Pays out the newly vested portion of an envelope to its
    /// beneficiary. The caller must be the beneficiary, present the right
    /// secret, and the unlock time, if set, must have passed; the payout
    /// is the vested amount at `now` less what was already claimed. A
    /// claim with nothing new to pay succeeds with `0` and no effect; a
    /// failed claim has no effect either.
    pub fn claim(
        &mut self,
        caller: u64,
        envelope_id: &Vec<u8>,
        provided_secret_hash: &Vec<u8>,
        now: i64,
    ) -> (r: Result<i128, Error>)
        requires
            old(self).wf(),
        ensures
            final(self).wf(),
            old(self).same_config(*final(self)),
            !old(self).env_map().contains_key(envelope_id@) ==> r == Err::<i128, Error>(
                Error::NotFound,
            ) && *final(self) == *old(self),
            old(self).env_map().contains_key(envelope_id@) ==> (match claim_outcome(
                old(self).env_map()[envelope_id@],
                caller,
                provided_secret_hash@,
                now as int,
            ) {
                Result::Err(e) => r == Err::<i128, Error>(e) && *final(self) == *old(self),
                Result::Ok(p) => {
                    &&& r matches Ok(delta) && delta as int == p.1
                    &&& final(self).env_map() == old(self).env_map().insert(envelope_id@, p.0)
                    &&& p.1 == 0 ==> *final(self) == *old(self)
                },
            }),
    {
        proof {
            lemma_entries_map_properties(self.entries@);
        }
        let idx: usize = match find_entry(&self.entries, envelope_id) {
            Some(i) => i,
            None => {
                return Err(Error::NotFound);
            },
        };
        let ghost e0 = self.entries@[idx as int].env@;
        assert(envelope_wf(e0));
        if caller != self.entries[idx].env.beneficiary {
            return Err(Error::Unauthorized);
        }
        if self.entries[idx].env.revoked {
            return Err(Error::Revoked);
        }
        if !bytes_eq(provided_secret_hash, &self.entries[idx].env.secret_hash) {
            return Err(Error::InvalidSecret);
        }
        match self.entries[idx].env.unlock_ts {
            Some(u) => {
                if now < u {
                    return Err(Error::Locked);
                }
            },
            None => {},
        }
        let bp: u32 = vested_fraction(&self.entries[idx].env.vesting, now);
        let vested: i128 = vested_amount(self.entries[idx].env.amount, bp);
        if vested <= self.entries[idx].env.claimed {
            proof {
                assert(old(self).env_map().insert(envelope_id@, e0) =~= old(self).env_map());
            }
            return Ok(0);
        }
        let delta: i128 = vested - self.entries[idx].env.claimed;
        let mut updated = self.entries[idx].env.clone();
        updated.claimed = vested;
        let new_id = clone_bytes(envelope_id);
        let ghost old_entries = self.entries@;
        let new_entry = EnvelopeEntry { id: new_id, env: updated };
        proof {
            lemma_entries_map_update(old_entries, idx as int, new_entry);
        }
        self.entries.set(idx, new_entry);
        proof {
            assert forall|i: int, j: int|
                0 <= i < j < self.entries@.len() implies self.entries@[i].id@
                != self.entries@[j].id@ by {
                assert(old_entries[i].id@ != old_entries[j].id@);
            }
            assert forall|i: int|
                0 <= i < self.entries@.len() implies envelope_wf(
                #[trigger] self.entries@[i].env@,
            ) by {
                if i != idx as int {
                    assert(envelope_wf(old_entries[i].env@));
                }
            }
        }
        Ok(delta)
    }

    /// Marks an envelope revoked, halting all further claims. Only the
    /// owner may revoke; an envelope already revoked or already claimed in
    /// full is refused. The claimed amount is left as it stands: a
    /// vested-but-unclaimed remainder is forfeited, not paid out. On
    /// failure the registry is untouched.
    pub fn revoke_envelope(&mut self, caller: u64, envelope_id: &Vec<u8>) -> (r: Result<
        (),
        Error,
    >)
        requires
            old(self).wf(),
        ensures
            final(self).wf(),
            old(self).same_config(*final(self)),
            !old(self).is_owner(caller) ==> r == Err::<(), Error>(Error::Unauthorized)
                && *final(self) == *old(self),
            old(self).is_owner(caller) && !old(self).env_map().contains_key(envelope_id@) ==> r
                == Err::<(), Error>(Error::NotFound) && *final(self) == *old(self),
            old(self).is_owner(caller) && old(self).env_map().contains_key(envelope_id@) ==> (
            match revoke_outcome(old(self).env_map()[envelope_id@]) {
                Result::Err(e) => r == Err::<(), Error>(e) && *final(self) == *old(self),
                Result::Ok(e2) => r == Ok::<(), Error>(()) && final(self).env_map() == old(
                    self,
                ).env_map().insert(envelope_id@, e2),
            }),
    {
        proof {
            lemma_entries_map_properties(self.entries@);
        }
        let authorized: bool = match self.owner {
            Some(o) => o == caller,
            None => false,
        };
        if !authorized {
            return Err(Error::Unauthorized);
        }
        let idx: usize = match find_entry(&self.entries, envelope_id) {
            Some(i) => i,
            None => {
                return Err(Error::NotFound);
            },
        };
        if self.entries[idx].env.revoked {
            return Err(Error::AlreadyRevoked);
        }
        if self.entries[idx].env.claimed >= self.entries[idx].env.amount {
            return Err(Error::FullyClaimed);
        }
        let mut updated = self.entries[idx].env.clone();
        updated.revoked = true;
        let new_id = clone_bytes(envelope_id);
        let ghost old_entries = self.entries@;
        let new_entry = EnvelopeEntry { id: new_id, env: updated };
        proof {
            lemma_entries_map_update(old_entries, idx as int, new_entry);
        }
        self.entries.set(idx, new_entry);
        proof {
            assert forall|i: int, j: int|
                0 <= i < j < self.entries@.len() implies self.entries@[i].id@
                != self.entries@[j].id@ by {
                assert(old_entries[i].id@ != old_entries[j].id@);
            }
            assert forall|i: int|
                0 <= i < self.entries@.len() implies envelope_wf(
                #[trigger] self.entries@[i].env@,
            ) by {
                if i != idx as int {
                    assert(envelope_wf(old_entries[i].env@));
                }
            }
        }
        Ok(())
    }

    /// Returns the unclaimed remainder of an expired envelope to the
    /// owner, closing the envelope: it becomes revoked with its amount
    /// claimed in full. Only the owner may refund; the envelope must have
    /// an expiry time that has passed and must not be revoked already. A
    /// refund with nothing left succeeds with `0` and no effect; a failed
    /// refund has no effect either.
    pub fn refund_owner(&mut self, caller: u64, envelope_id: &Vec<u8>, now: i64) -> (r: Result<
        i128,
        Error,
    >)
        requires
            old(self).wf(),
        ensures
            final(self).wf(),
            old(self).same_config(*final(self)),
            !old(self).is_owner(caller) ==> r == Err::<i128, Error>(Error::Unauthorized)
                && *final(self) == *old(self),
            old(self).is_owner(caller) && !old(self).env_map().contains_key(envelope_id@) ==> r
                == Err::<i128, Error>(Error::NotFound) && *final(self) == *old(self),
            old(self).is_owner(caller) && old(self).env_map().contains_key(envelope_id@) ==> (
            match refund_outcome(old(self).env_map()[envelope_id@], now as int) {
                Result::Err(e) => r == Err::<i128, Error>(e) && *final(self) == *old(self),
                Result::Ok(p) => {
                    &&& r matches Ok(refunded) && refunded as int == p.1
                    &&& final(self).env_map() == old(self).env_map().insert(envelope_id@, p.0)
                    &&& p.1 == 0 ==> *final(self) == *old(self)
                },
            }),
    {
        proof {
            lemma_entries_map_properties(self.entries@);
        }
        let authorized: bool = match self.owner {
            Some(o) => o == caller,
            None => false,
        };
        if !authorized {
            return Err(Error::Unauthorized);
        }
        let idx: usize = match find_entry(&self.entries, envelope_id) {
            Some(i) => i,
            None => {
                return Err(Error::NotFound);
            },
        };
        let ghost e0 = self.entries@[idx as int].env@;
        assert(envelope_wf(e0));
        match self.entries[idx].env.expiry_ts {
            Some(exp) => {
                if now < exp {
                    return Err(Error::NotYetExpired);
                }
            },
            None => {
                return Err(Error::NoExpirySet);
            },
        }
        if self.entries[idx].env.revoked {
            return Err(Error::AlreadyRevoked);
        }
        let amount: i128 = self.entries[idx].env.amount;
        let claimed: i128 = self.entries[idx].env.claimed;
        let unclaimed: i128 = amount - claimed;
        if unclaimed <= 0 {
            proof {
                assert(old(self).env_map().insert(envelope_id@, e0) =~= old(self).env_map());
            }
            return Ok(0);
        }
        let mut updated = self.entries[idx].env.clone();
        updated.revoked = true;
        updated.claimed = amount;
        let new_id = clone_bytes(envelope_id);
        let ghost old_entries = self.entries@;
        let new_entry = EnvelopeEntry { id: new_id, env: updated };
        proof {
            lemma_entries_map_update(old_entries, idx as int, new_entry);
        }
        self.entries.set(idx, new_entry);
        proof {
            assert forall|i: int, j: int|
                0 <= i < j < self.entries@.len() implies self.entries@[i].id@
                != self.entries@[j].id@ by {
                assert(old_entries[i].id@ != old_entries[j].id@);
            }
            assert forall|i: int|
                0 <= i < self.entries@.len() implies envelope_wf(
                #[trigger] self.entries@[i].env@,
            ) by {
                if i != idx as int {
                    assert(envelope_wf(old_entries[i].env@));
                }
            }
        }
        Ok(unclaimed)
    }

    /// Read-only lookup of an envelope; any caller may read, and the
    /// registry is never changed.
    pub fn get_envelope(&self, envelope_id: &Vec<u8>) -> (r: Result<Envelope, Error>)
        requires
            self.wf(),
        ensures
            match r {
                Result::Ok(e) => self.env_map().contains_key(envelope_id@) && e@
                    == self.env_map()[envelope_id@],
                Result::Err(err) => err == Error::NotFound && !self.env_map().contains_key(
                    envelope_id@,
                ),
            },
    {
        proof {
            lemma_entries_map_properties(self.entries@);
        }
        match find_entry(&self.entries, envelope_id) {
            Some(i) => Ok(self.entries[i].env.clone()),
            None => Err(Error::NotFound),
        }
    }
}

} // verus!
