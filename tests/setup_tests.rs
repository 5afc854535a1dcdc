use halo2curves::bn256::Fr;
use halo2curves::ff::{Field, PrimeField};
use summa_round::field::encode;
use summa_round::setup::{domain_generator, parse_setup_exponent};

#[test]
fn exponent_from_last_segment() {
    assert_eq!(parse_setup_exponent("hermez-raw-11"), Some(11));
    assert_eq!(parse_setup_exponent("ptau-17"), Some(17));
    assert_eq!(parse_setup_exponent("20"), Some(20));
    assert_eq!(parse_setup_exponent("a-b-4294967295"), Some(4294967295));
}

#[test]
fn malformed_exponents_are_rejected() {
    assert_eq!(parse_setup_exponent("hermez-raw-"), None);
    assert_eq!(parse_setup_exponent(""), None);
    assert_eq!(parse_setup_exponent("hermez-raw-1x"), None);
    assert_eq!(parse_setup_exponent("hermez-raw-4294967296"), None);
    assert_eq!(parse_setup_exponent("hermez-raw-99999999999999999999"), None);
    assert_eq!(parse_setup_exponent("params"), None);
}

#[test]
fn generator_of_size_four_domain() {
    let omega = Fr::ROOT_OF_UNITY.pow_vartime([1u64 << 26]);
    let g = domain_generator(2);
    assert!(g.equals(&encode(&omega.to_repr().to_vec())));
    // a generator of the size-4 domain has order 4
    assert!(g.pow(4).equals(&encode(&vec![1])));
    assert!(!g.pow(2).equals(&encode(&vec![1])));
}

#[test]
fn generator_of_full_domain_is_the_root_of_unity() {
    let g = domain_generator(28);
    assert!(g.equals(&encode(&Fr::ROOT_OF_UNITY.to_repr().to_vec())));
}

#[test]
fn generator_of_trivial_domain_is_one() {
    assert!(domain_generator(0).equals(&encode(&vec![1])));
}
