use envelope_registry::errors::Error;
use envelope_registry::registry::Contract;
use envelope_registry::vesting::VestSlice;

const OWNER: u64 = 1;
const BENEFICIARY: u64 = 2;
const STRANGER: u64 = 3;

fn id(b: u8) -> Vec<u8> {
    vec![b; 32]
}

fn secret(b: u8) -> Vec<u8> {
    vec![b; 32]
}

fn setup() -> Contract {
    let mut c = Contract::new();
    assert_eq!(c.initialize(OWNER, vec![10, 11], 2, 86_400), Ok(()));
    c
}

#[test]
fn initialize_runs_once() {
    let mut c = Contract::new();
    assert_eq!(c.initialize(OWNER, vec![], 0, 0), Ok(()));
    assert_eq!(c.initialize(OWNER, vec![], 0, 0), Err(Error::AlreadyInitialized));
    assert_eq!(c.initialize(STRANGER, vec![], 5, 5), Err(Error::AlreadyInitialized));
}

#[test]
fn create_requires_owner() {
    let mut c = setup();
    assert_eq!(
        c.create_envelope(STRANGER, id(1), BENEFICIARY, 1_000, secret(9), None, vec![], None),
        Err(Error::Unauthorized)
    );
    let mut fresh = Contract::new();
    assert_eq!(
        fresh.create_envelope(OWNER, id(1), BENEFICIARY, 1_000, secret(9), None, vec![], None),
        Err(Error::Unauthorized)
    );
}

#[test]
fn create_rejects_non_positive_amount() {
    let mut c = setup();
    assert_eq!(
        c.create_envelope(OWNER, id(1), BENEFICIARY, 0, secret(9), None, vec![], None),
        Err(Error::InvalidAmount)
    );
    assert_eq!(
        c.create_envelope(OWNER, id(1), BENEFICIARY, -5, secret(9), None, vec![], None),
        Err(Error::InvalidAmount)
    );
}

#[test]
fn create_rejects_duplicate_identifier() {
    let mut c = setup();
    assert_eq!(
        c.create_envelope(OWNER, id(1), BENEFICIARY, 1_000, secret(9), None, vec![], None),
        Ok(())
    );
    assert_eq!(
        c.create_envelope(OWNER, id(1), STRANGER, 50, secret(8), None, vec![], None),
        Err(Error::DuplicateEnvelope)
    );
}

#[test]
fn create_then_get_round_trip() {
    let mut c = setup();
    let vesting = vec![VestSlice { ts: 40, bp: 4_000 }, VestSlice { ts: 80, bp: 6_000 }];
    assert_eq!(
        c.create_envelope(
            OWNER,
            id(1),
            BENEFICIARY,
            1_000,
            secret(9),
            Some(30),
            vesting.clone(),
            Some(90),
        ),
        Ok(())
    );
    let e = c.get_envelope(&id(1)).unwrap();
    assert_eq!(e.beneficiary, BENEFICIARY);
    assert_eq!(e.amount, 1_000);
    assert_eq!(e.secret_hash, secret(9));
    assert_eq!(e.unlock_ts, Some(30));
    assert_eq!(e.vesting.len(), vesting.len());
    assert_eq!(e.vesting[0].ts, 40);
    assert_eq!(e.vesting[0].bp, 4_000);
    assert_eq!(e.vesting[1].ts, 80);
    assert_eq!(e.vesting[1].bp, 6_000);
    assert_eq!(e.expiry_ts, Some(90));
    assert_eq!(e.claimed, 0);
    assert!(!e.revoked);
}

#[test]
fn get_absent_envelope_fails() {
    let c = setup();
    assert!(matches!(c.get_envelope(&id(1)), Err(Error::NotFound)));
}

#[test]
fn claim_full_amount_immediately_then_nothing() {
    let mut c = setup();
    assert_eq!(
        c.create_envelope(OWNER, id(1), BENEFICIARY, 1_000, secret(9), None, vec![], None),
        Ok(())
    );
    assert_eq!(c.claim(BENEFICIARY, &id(1), &secret(9), 100), Ok(1_000));
    assert_eq!(c.claim(BENEFICIARY, &id(1), &secret(9), 100), Ok(0));
    let e = c.get_envelope(&id(1)).unwrap();
    assert_eq!(e.claimed, 1_000);
    assert!(!e.revoked);
}

#[test]
fn claim_follows_vesting_schedule() {
    let mut c = setup();
    let vesting = vec![VestSlice { ts: 50, bp: 5_000 }];
    assert_eq!(
        c.create_envelope(OWNER, id(1), BENEFICIARY, 1_000, secret(9), None, vesting, None),
        Ok(())
    );
    assert_eq!(c.claim(BENEFICIARY, &id(1), &secret(9), 49), Ok(0));
    assert_eq!(c.claim(BENEFICIARY, &id(1), &secret(9), 50), Ok(500));
    assert_eq!(c.claim(BENEFICIARY, &id(1), &secret(9), 51), Ok(0));
    assert_eq!(c.get_envelope(&id(1)).unwrap().claimed, 500);
}

#[test]
fn claim_respects_unlock_time() {
    let mut c = setup();
    assert_eq!(
        c.create_envelope(OWNER, id(1), BENEFICIARY, 1_000, secret(9), Some(60), vec![], None),
        Ok(())
    );
    assert_eq!(c.claim(BENEFICIARY, &id(1), &secret(9), 59), Err(Error::Locked));
    assert_eq!(c.claim(BENEFICIARY, &id(1), &secret(9), 60), Ok(1_000));
}

#[test]
fn claim_requires_beneficiary_and_secret() {
    let mut c = setup();
    assert_eq!(
        c.create_envelope(OWNER, id(1), BENEFICIARY, 1_000, secret(9), None, vec![], None),
        Ok(())
    );
    assert_eq!(c.claim(STRANGER, &id(1), &secret(9), 100), Err(Error::Unauthorized));
    assert_eq!(c.claim(OWNER, &id(1), &secret(9), 100), Err(Error::Unauthorized));
    assert_eq!(c.claim(BENEFICIARY, &id(1), &secret(8), 100), Err(Error::InvalidSecret));
    assert_eq!(c.claim(BENEFICIARY, &id(2), &secret(9), 100), Err(Error::NotFound));
    assert_eq!(c.get_envelope(&id(1)).unwrap().claimed, 0);
}

#[test]
fn claim_truncates_toward_zero() {
    let mut c = setup();
    let vesting = vec![VestSlice { ts: 0, bp: 5_000 }];
    assert_eq!(
        c.create_envelope(OWNER, id(1), BENEFICIARY, 999, secret(9), None, vesting, None),
        Ok(())
    );
    assert_eq!(c.claim(BENEFICIARY, &id(1), &secret(9), 0), Ok(499));
}

#[test]
fn successive_claim_deltas_sum_to_claimed() {
    let mut c = setup();
    let vesting = vec![
        VestSlice { ts: 10, bp: 2_500 },
        VestSlice { ts: 20, bp: 2_500 },
        VestSlice { ts: 30, bp: 5_000 },
    ];
    assert_eq!(
        c.create_envelope(OWNER, id(1), BENEFICIARY, 1_000, secret(9), None, vesting, None),
        Ok(())
    );
    let mut total: i128 = 0;
    for now in [5i64, 10, 15, 20, 20, 30, 40] {
        let delta = c.claim(BENEFICIARY, &id(1), &secret(9), now).unwrap();
        total += delta;
    }
    assert_eq!(total, 1_000);
    assert_eq!(c.get_envelope(&id(1)).unwrap().claimed, total);
}

#[test]
fn revoke_halts_claims_and_runs_once() {
    let mut c = setup();
    assert_eq!(
        c.create_envelope(OWNER, id(1), BENEFICIARY, 1_000, secret(9), None, vec![], None),
        Ok(())
    );
    assert_eq!(c.revoke_envelope(OWNER, &id(1)), Ok(()));
    assert_eq!(c.claim(BENEFICIARY, &id(1), &secret(9), 100), Err(Error::Revoked));
    assert_eq!(c.revoke_envelope(OWNER, &id(1)), Err(Error::AlreadyRevoked));
    let e = c.get_envelope(&id(1)).unwrap();
    assert!(e.revoked);
    assert_eq!(e.claimed, 0);
}

#[test]
fn revoke_requires_owner_and_existing_envelope() {
    let mut c = setup();
    assert_eq!(
        c.create_envelope(OWNER, id(1), BENEFICIARY, 1_000, secret(9), None, vec![], None),
        Ok(())
    );
    assert_eq!(c.revoke_envelope(BENEFICIARY, &id(1)), Err(Error::Unauthorized));
    assert_eq!(c.revoke_envelope(OWNER, &id(2)), Err(Error::NotFound));
}

#[test]
fn revoke_refuses_fully_claimed_envelope() {
    let mut c = setup();
    assert_eq!(
        c.create_envelope(OWNER, id(1), BENEFICIARY, 1_000, secret(9), None, vec![], None),
        Ok(())
    );
    assert_eq!(c.claim(BENEFICIARY, &id(1), &secret(9), 0), Ok(1_000));
    assert_eq!(c.revoke_envelope(OWNER, &id(1)), Err(Error::FullyClaimed));
}

#[test]
fn refund_returns_remainder_after_expiry() {
    let mut c = setup();
    let vesting = vec![VestSlice { ts: 10, bp: 3_000 }];
    assert_eq!(
        c.create_envelope(OWNER, id(1), BENEFICIARY, 1_000, secret(9), None, vesting, Some(100)),
        Ok(())
    );
    assert_eq!(c.claim(BENEFICIARY, &id(1), &secret(9), 10), Ok(300));
    assert_eq!(c.refund_owner(OWNER, &id(1), 99), Err(Error::NotYetExpired));
    assert_eq!(c.refund_owner(OWNER, &id(1), 100), Ok(700));
    let e = c.get_envelope(&id(1)).unwrap();
    assert_eq!(e.claimed, 1_000);
    assert!(e.revoked);
    assert_eq!(c.claim(BENEFICIARY, &id(1), &secret(9), 200), Err(Error::Revoked));
}

#[test]
fn refund_requires_owner_expiry_and_unrevoked() {
    let mut c = setup();
    assert_eq!(
        c.create_envelope(OWNER, id(1), BENEFICIARY, 1_000, secret(9), None, vec![], None),
        Ok(())
    );
    assert_eq!(
        c.create_envelope(OWNER, id(2), BENEFICIARY, 1_000, secret(9), None, vec![], Some(50)),
        Ok(())
    );
    assert_eq!(c.refund_owner(BENEFICIARY, &id(2), 60), Err(Error::Unauthorized));
    assert_eq!(c.refund_owner(OWNER, &id(3), 60), Err(Error::NotFound));
    assert_eq!(c.refund_owner(OWNER, &id(1), 60), Err(Error::NoExpirySet));
    assert_eq!(c.revoke_envelope(OWNER, &id(2)), Ok(()));
    assert_eq!(c.refund_owner(OWNER, &id(2), 60), Err(Error::AlreadyRevoked));
}

#[test]
fn refund_of_fully_claimed_envelope_is_a_no_op() {
    let mut c = setup();
    assert_eq!(
        c.create_envelope(OWNER, id(1), BENEFICIARY, 1_000, secret(9), None, vec![], Some(50)),
        Ok(())
    );
    assert_eq!(c.claim(BENEFICIARY, &id(1), &secret(9), 10), Ok(1_000));
    assert_eq!(c.refund_owner(OWNER, &id(1), 60), Ok(0));
    let e = c.get_envelope(&id(1)).unwrap();
    assert_eq!(e.claimed, 1_000);
    assert!(!e.revoked);
}

#[test]
fn envelopes_are_independent() {
    let mut c = setup();
    assert_eq!(
        c.create_envelope(OWNER, id(1), BENEFICIARY, 1_000, secret(9), None, vec![], None),
        Ok(())
    );
    assert_eq!(
        c.create_envelope(OWNER, id(2), STRANGER, 400, secret(8), None, vec![], None),
        Ok(())
    );
    assert_eq!(c.revoke_envelope(OWNER, &id(1)), Ok(()));
    assert_eq!(c.claim(STRANGER, &id(2), &secret(8), 5), Ok(400));
    assert!(c.get_envelope(&id(1)).unwrap().revoked);
    assert!(!c.get_envelope(&id(2)).unwrap().revoked);
}
