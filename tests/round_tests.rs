use halo2curves::bn256::Fr;
use halo2curves::ff::{Field, PrimeField};
use summa_round::field::{encode, Fp};
use summa_round::round::{
    ColumnOpening, Entry, ProofError, Round, Snapshot, SnapshotError,
};

fn fp(v: u8) -> Fp {
    encode(&vec![v])
}

fn entries(balances: &[u8]) -> Vec<Entry> {
    balances
        .iter()
        .enumerate()
        .map(|(i, b)| Entry { identity: vec![0x75, i as u8], balances: vec![vec![*b]] })
        .collect()
}

fn columns(n: usize) -> Vec<Vec<Fp>> {
    (0..n).map(|c| vec![fp(c as u8), fp(1)]).collect()
}

fn four_users() -> Snapshot {
    Snapshot::new(columns(2), entries(&[10, 20, 30, 40]), 1, "hermez-raw-2").unwrap()
}

fn omega4() -> Fr {
    Fr::ROOT_OF_UNITY.pow_vartime([1u64 << 26])
}

fn of_fr(f: Fr) -> Fp {
    encode(&f.to_repr().to_vec())
}

fn opening(seed: u8, verified: bool) -> ColumnOpening {
    let mut x = [0u8; 32];
    let mut y = [0u8; 32];
    for i in 0..32 {
        x[i] = seed.wrapping_add(i as u8);
        y[i] = seed.wrapping_mul(3).wrapping_add(i as u8);
    }
    ColumnOpening { x, y, verified }
}

#[test]
fn user_two_opens_at_omega_squared_to_thirty() {
    let s = four_users();
    let reqs = s.opening_requests(2).unwrap();
    assert_eq!(reqs.len(), 2);
    assert_eq!(reqs[1].column, 1);
    assert!(reqs[1].point.equals(&of_fr(omega4().pow_vartime([2u64]))));
    assert!(reqs[1].value.equals(&fp(30)));
    let other = s.opening_requests(1).unwrap();
    assert!(!other[1].point.equals(&reqs[1].point));
    assert!(other[1].point.equals(&of_fr(omega4())));
}

#[test]
fn identity_column_claims_the_identity() {
    let s = four_users();
    let reqs = s.opening_requests(3).unwrap();
    assert_eq!(reqs[0].column, 0);
    assert!(reqs[0].value.equals(&encode(&vec![0x75, 3])));
    assert!(reqs[0].point.equals(&reqs[1].point));
}

#[test]
fn user_zero_opens_at_one() {
    let s = four_users();
    let reqs = s.opening_requests(0).unwrap();
    assert!(reqs[0].point.equals(&fp(1)));
    assert!(reqs[1].value.equals(&fp(10)));
}

#[test]
fn user_index_out_of_range() {
    let s = four_users();
    assert_eq!(s.opening_requests(4).unwrap_err(), ProofError::UserIndexOutOfRange);
    let openings = vec![opening(1, true), opening(2, true)];
    assert_eq!(
        s.generate_proof_of_inclusion(4, &openings).unwrap_err(),
        ProofError::UserIndexOutOfRange
    );
    assert_eq!(
        s.generate_proof_of_inclusion(600, &openings).unwrap_err(),
        ProofError::UserIndexOutOfRange
    );
}

#[test]
fn proof_bytes_are_big_endian_coordinates_in_column_order() {
    let s = four_users();
    let openings = vec![opening(1, true), opening(100, true)];
    let p = s.generate_proof_of_inclusion(2, &openings).unwrap();
    let bytes = p.get_proof();
    assert_eq!(bytes.len(), 128);
    let mut expected = Vec::new();
    for o in &openings {
        let mut x = o.x.to_vec();
        x.reverse();
        let mut y = o.y.to_vec();
        y.reverse();
        expected.extend(x);
        expected.extend(y);
    }
    assert_eq!(*bytes, expected);
    assert_eq!(bytes[0], 32);
    assert!(p.get_public_inputs().is_empty());
}

#[test]
fn same_inputs_give_same_proof() {
    let s = four_users();
    let openings = vec![opening(9, true), opening(4, true)];
    let a = s.generate_proof_of_inclusion(1, &openings).unwrap();
    let b = s.generate_proof_of_inclusion(1, &openings).unwrap();
    assert_eq!(a.get_proof(), b.get_proof());
}

#[test]
fn failed_self_check_is_reported() {
    let s = four_users();
    let openings = vec![opening(1, true), opening(2, false)];
    assert_eq!(
        s.generate_proof_of_inclusion(2, &openings).unwrap_err(),
        ProofError::SelfCheckFailed
    );
}

#[test]
fn wrong_number_of_openings() {
    let s = four_users();
    let openings = vec![opening(1, true)];
    assert_eq!(
        s.generate_proof_of_inclusion(2, &openings).unwrap_err(),
        ProofError::ColumnCountMismatch
    );
}

#[test]
fn construction_faults() {
    assert_eq!(
        Snapshot::new(columns(2), entries(&[1]), 1, "hermez-raw-x").err(),
        Some(SnapshotError::MalformedSetupName)
    );
    assert_eq!(
        Snapshot::new(columns(2), entries(&[1, 2, 3]), 1, "hermez-raw-1").err(),
        Some(SnapshotError::DomainTooSmall)
    );
    assert_eq!(
        Snapshot::new(columns(2), entries(&[1]), 1, "hermez-raw-29").err(),
        Some(SnapshotError::DomainTooSmall)
    );
    assert_eq!(
        Snapshot::new(columns(3), entries(&[1]), 1, "hermez-raw-2").err(),
        Some(SnapshotError::ColumnCountMismatch)
    );
    let mut bad = entries(&[1, 2]);
    bad[1].balances.push(vec![5]);
    assert_eq!(
        Snapshot::new(columns(2), bad, 1, "hermez-raw-2").err(),
        Some(SnapshotError::MalformedEntry)
    );
    let mut wide = entries(&[1]);
    wide[0].identity = vec![1u8; 65];
    assert_eq!(
        Snapshot::new(columns(2), wide, 1, "hermez-raw-2").err(),
        Some(SnapshotError::MalformedEntry)
    );
}

#[test]
fn round_keeps_timestamp_and_delegates() {
    let r = Round::new(columns(2), entries(&[10, 20, 30, 40]), 1, "ptau-2", 1_700_000_000).unwrap();
    assert_eq!(r.get_timestamp(), 1_700_000_000);
    let reqs = r.opening_requests(3).unwrap();
    assert!(reqs[1].value.equals(&fp(40)));
    let openings = vec![opening(5, true), opening(6, true)];
    assert_eq!(r.get_proof_of_inclusion(3, &openings).unwrap().get_proof().len(), 128);
    assert_eq!(r.get_proof_of_inclusion(4, &openings).unwrap_err(), ProofError::UserIndexOutOfRange);
    assert!(Round::new(columns(1), entries(&[1]), 1, "ptau-2", 0).is_err());
}

#[test]
fn username_is_read_big_endian() {
    let e = Entry::from_username("ab", vec![vec![7]]);
    assert_eq!(e.identity, vec![0x62, 0x61]);
    assert_eq!(e.balances, vec![vec![7u8]]);
    assert!(encode(&e.identity).equals(&encode(&vec![0x62, 0x61])));
}

#[test]
fn columns_are_reachable_by_index() {
    let r = Round::new(columns(2), entries(&[1, 2]), 1, "ptau-3", 5).unwrap();
    let s = r.get_snapshot();
    assert!(s.column(1).unwrap()[0].equals(&fp(1)));
    assert!(s.column(0).unwrap()[1].equals(&fp(1)));
    assert!(s.column(2).is_none());
}
