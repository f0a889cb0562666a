use veritasor_attestation::bytes::{compare_periods, same_bytes, same_root};
use veritasor_attestation::ledger::{
    AttestationContract, AttestationError, AttestationRecord, AttestationStatus,
};

fn b(s: &str) -> Vec<u8> {
    s.as_bytes().to_vec()
}

fn root(x: u8) -> [u8; 32] {
    [x; 32]
}

fn rec(r: [u8; 32], ts: u64, v: u32) -> AttestationRecord {
    AttestationRecord { merkle_root: r, timestamp: ts, version: v }
}

fn store_with_a_q1() -> AttestationContract {
    let mut s = AttestationContract::new();
    assert_eq!(s.submit_attestation(b("A"), b("2024-Q1"), root(1), 1000, 1), Ok(()));
    s
}

#[test]
fn submit_then_get_returns_record() {
    let s = store_with_a_q1();
    assert_eq!(s.get_attestation(&b("A"), &b("2024-Q1")), Some(rec(root(1), 1000, 1)));
}

#[test]
fn get_missing_is_none() {
    let s = store_with_a_q1();
    assert_eq!(s.get_attestation(&b("A"), &b("2024-Q2")), None);
    assert_eq!(s.get_attestation(&b("B"), &b("2024-Q1")), None);
}

#[test]
fn second_submit_with_other_root_fails_and_keeps_first() {
    let mut s = store_with_a_q1();
    assert_eq!(
        s.submit_attestation(b("A"), b("2024-Q1"), root(2), 1000, 1),
        Err(AttestationError::DuplicateAttestation)
    );
    assert_eq!(s.get_attestation(&b("A"), &b("2024-Q1")), Some(rec(root(1), 1000, 1)));
}

#[test]
fn second_submit_with_same_data_fails() {
    let mut s = store_with_a_q1();
    assert_eq!(
        s.submit_attestation(b("A"), b("2024-Q1"), root(1), 1000, 1),
        Err(AttestationError::DuplicateAttestation)
    );
    assert_eq!(s.get_attestation(&b("A"), &b("2024-Q1")), Some(rec(root(1), 1000, 1)));
}

#[test]
fn same_period_other_owner_is_separate_key() {
    let mut s = store_with_a_q1();
    assert_eq!(s.submit_attestation(b("B"), b("2024-Q1"), root(3), 5, 2), Ok(()));
    assert_eq!(s.get_attestation(&b("B"), &b("2024-Q1")), Some(rec(root(3), 5, 2)));
    assert_eq!(s.get_attestation(&b("A"), &b("2024-Q1")), Some(rec(root(1), 1000, 1)));
}

#[test]
fn verify_matches_only_stored_root() {
    let s = store_with_a_q1();
    assert!(s.verify_attestation(&b("A"), &b("2024-Q1"), &root(1)));
    assert!(!s.verify_attestation(&b("A"), &b("2024-Q1"), &root(2)));
    let mut almost = root(1);
    almost[31] = 0;
    assert!(!s.verify_attestation(&b("A"), &b("2024-Q1"), &almost));
    assert!(!s.verify_attestation(&b("A"), &b("2024-Q9"), &root(1)));
}

#[test]
fn init_twice_fails() {
    let mut s = AttestationContract::new();
    assert_eq!(s.init(b("Admin")), Ok(()));
    assert_eq!(s.init(b("Other")), Err(AttestationError::AdminAlreadySet));
    // the first administrator is still in charge
    let mut s2 = store_with_a_q1();
    assert_eq!(s2.init(b("Admin")), Ok(()));
    assert_eq!(s2.init(b("Other")), Err(AttestationError::AdminAlreadySet));
    assert_eq!(
        s2.revoke_attestation(b("Other"), b("A"), b("2024-Q1")),
        Err(AttestationError::NotAdmin)
    );
}

#[test]
fn revoke_before_init_fails_admin_not_set() {
    let mut s = store_with_a_q1();
    assert_eq!(
        s.revoke_attestation(b("Admin"), b("A"), b("2024-Q1")),
        Err(AttestationError::AdminNotSet)
    );
    assert_eq!(s.get_status(&b("A"), &b("2024-Q1")), AttestationStatus::Active);
}

#[test]
fn revoke_by_other_fails_not_admin() {
    let mut s = store_with_a_q1();
    s.init(b("Admin")).unwrap();
    assert_eq!(
        s.revoke_attestation(b("Other"), b("A"), b("2024-Q1")),
        Err(AttestationError::NotAdmin)
    );
    assert_eq!(s.get_status(&b("A"), &b("2024-Q1")), AttestationStatus::Active);
}

#[test]
fn revoke_missing_fails_not_found() {
    let mut s = store_with_a_q1();
    s.init(b("Admin")).unwrap();
    assert_eq!(
        s.revoke_attestation(b("Admin"), b("A"), b("2024-Q2")),
        Err(AttestationError::AttestationNotFound)
    );
    assert_eq!(s.get_status(&b("A"), &b("2024-Q2")), AttestationStatus::Active);
}

#[test]
fn revoke_keeps_record_and_verification() {
    let mut s = store_with_a_q1();
    s.init(b("Admin")).unwrap();
    assert_eq!(s.get_status(&b("A"), &b("2024-Q1")), AttestationStatus::Active);
    assert_eq!(s.revoke_attestation(b("Admin"), b("A"), b("2024-Q1")), Ok(()));
    assert_eq!(s.get_status(&b("A"), &b("2024-Q1")), AttestationStatus::Revoked);
    assert_eq!(s.get_attestation(&b("A"), &b("2024-Q1")), Some(rec(root(1), 1000, 1)));
    assert!(s.verify_attestation(&b("A"), &b("2024-Q1"), &root(1)));
}

#[test]
fn revocation_is_monotonic() {
    let mut s = store_with_a_q1();
    s.init(b("Admin")).unwrap();
    s.revoke_attestation(b("Admin"), b("A"), b("2024-Q1")).unwrap();
    assert_eq!(s.revoke_attestation(b("Admin"), b("A"), b("2024-Q1")), Ok(()));
    assert_eq!(
        s.submit_attestation(b("A"), b("2024-Q1"), root(9), 1, 1),
        Err(AttestationError::DuplicateAttestation)
    );
    assert_eq!(s.init(b("Other")), Err(AttestationError::AdminAlreadySet));
    assert_eq!(s.submit_attestation(b("A"), b("2024-Q2"), root(4), 2, 1), Ok(()));
    assert_eq!(s.get_status(&b("A"), &b("2024-Q1")), AttestationStatus::Revoked);
    assert_eq!(s.get_status(&b("A"), &b("2024-Q2")), AttestationStatus::Active);
    assert_eq!(s.get_attestation(&b("A"), &b("2024-Q1")), Some(rec(root(1), 1000, 1)));
    assert!(s.verify_attestation(&b("A"), &b("2024-Q1"), &root(1)));
}

#[test]
fn byte_helpers() {
    assert!(same_bytes(&b("ab"), &b("ab")));
    assert!(!same_bytes(&b("ab"), &b("abc")));
    assert!(same_root(&root(7), &root(7)));
    assert!(!same_root(&root(7), &root(8)));
    assert_eq!(compare_periods(&b("2024-Q1"), &b("2024-Q2")), -1);
    assert_eq!(compare_periods(&b("2024-Q2"), &b("2024-Q1")), 1);
    assert_eq!(compare_periods(&b("2024"), &b("2024-Q1")), -1);
    assert_eq!(compare_periods(&b("2024-Q1"), &b("2024")), 1);
    assert_eq!(compare_periods(&b("2024-Q1"), &b("2024-Q1")), 0);
    assert_eq!(compare_periods(&b(""), &b("")), 0);
    assert_eq!(compare_periods(&b("9999"), &b("2024-Q1")), 1);
}
