use halo2curves::bn256::Fr;
use halo2curves::ff::{Field, PrimeField};
use num_bigint::BigUint;
use summa_round::field::{encode, Fp};

const MODULUS: &[u8] =
    b"21888242871839275222246405745257275088548364400416034343698204186575808495617";

fn modulus_le() -> Vec<u8> {
    BigUint::parse_bytes(MODULUS, 10).unwrap().to_bytes_le()
}

fn from_fr(f: Fr) -> Fp {
    encode(&f.to_repr().to_vec())
}

#[test]
fn zero_is_all_zero_bytes() {
    assert_eq!(Fp::zero().to_be_bytes(), vec![0u8; 32]);
}

#[test]
fn encode_small_value_is_big_endian_on_output() {
    let v = encode(&vec![0x34, 0x12]);
    let mut expected = vec![0u8; 32];
    expected[30] = 0x12;
    expected[31] = 0x34;
    assert_eq!(v.to_be_bytes(), expected);
}

#[test]
fn encode_reduces_modulo_the_field_order() {
    let p = encode(&modulus_le());
    assert!(p.equals(&Fp::zero()));
    let mut p_plus_five = BigUint::parse_bytes(MODULUS, 10).unwrap();
    p_plus_five += 5u32;
    assert!(encode(&p_plus_five.to_bytes_le()).equals(&encode(&vec![5])));
}

#[test]
fn encode_accepts_sixty_four_bytes() {
    let wide = vec![0xffu8; 64];
    let expected = BigUint::from_bytes_le(&wide) % BigUint::parse_bytes(MODULUS, 10).unwrap();
    assert!(encode(&wide).equals(&encode(&expected.to_bytes_le())));
}

#[test]
fn encode_empty_is_zero() {
    assert!(encode(&vec![]).equals(&Fp::zero()));
}

#[test]
fn addition_wraps_at_the_modulus() {
    let mut p_minus_one = modulus_le();
    p_minus_one[0] -= 1;
    let a = encode(&p_minus_one);
    let one = encode(&vec![1]);
    assert!(a.add(&one).equals(&Fp::zero()));
    assert!(encode(&vec![10]).add(&encode(&vec![20])).equals(&encode(&vec![30])));
}

#[test]
fn power_of_small_values() {
    assert!(encode(&vec![3]).pow(4).equals(&encode(&vec![81])));
    assert!(encode(&vec![7]).pow(0).equals(&encode(&vec![1])));
    assert!(Fp::zero().pow(5).equals(&Fp::zero()));
}

#[test]
fn equals_tells_values_apart() {
    assert!(!encode(&vec![1]).equals(&encode(&vec![2])));
    assert!(encode(&vec![2, 0, 0]).equals(&encode(&vec![2])));
}

#[test]
fn root_of_unity_matches_the_curve_library() {
    let expected = from_fr(Fr::ROOT_OF_UNITY);
    assert!(Fp::root_of_unity().equals(&expected));
    let mut be = Fr::ROOT_OF_UNITY.to_repr().to_vec();
    be.reverse();
    assert_eq!(Fp::root_of_unity().to_be_bytes(), be);
}

#[test]
fn power_matches_the_curve_library() {
    let g = Fr::from(5u64);
    assert!(from_fr(g).pow(1000).equals(&from_fr(g.pow_vartime([1000u64]))));
}
