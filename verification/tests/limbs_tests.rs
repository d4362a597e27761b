use dkim_prover_input::errors::PipelineError;
use dkim_prover_input::limbs::{bn_limb_string, decompose_limbs};
use num_bigint_dig::BigUint;

#[test]
fn limb_string_matches_reference_encoder() {
    let cases: Vec<Vec<u8>> = vec![
        vec![],
        vec![0],
        vec![1],
        vec![0xff],
        vec![0xde, 0xad, 0xbe, 0xef],
        (0u16..256).map(|i| (i * 7 % 251) as u8).collect(),
        vec![0, 0, 5, 9],
    ];
    for bytes in cases {
        let mine = bn_limb_string(&bytes).unwrap();
        let reference =
            noir_bignum_paramgen::bn_limbs(BigUint::from_bytes_be(&bytes), 2048);
        assert_eq!(mine, reference);
    }
}

#[test]
fn limb_round_trip_recombines_exactly() {
    let bytes: Vec<u8> = (0u16..256).map(|i| (i * 31 % 257) as u8).collect();
    let value = BigUint::from_bytes_be(&bytes);
    let limbs = decompose_limbs(&bytes).unwrap();
    assert_eq!(limbs.len(), 18);
    // recombine under the 120-bit radix, least significant limb first
    let mut recombined = BigUint::from(0u8);
    for limb in limbs.iter().rev() {
        assert_eq!(limb.len(), 15);
        recombined = (recombined << 120) + BigUint::from_bytes_be(limb);
    }
    assert_eq!(recombined, value);
}

#[test]
fn value_wider_than_bit_width_is_encoding_error() {
    let mut bytes = vec![1u8];
    bytes.extend(std::iter::repeat(0u8).take(256));
    assert_eq!(bn_limb_string(&bytes).unwrap_err(), PipelineError::Encoding);
    assert_eq!(decompose_limbs(&bytes).unwrap_err(), PipelineError::Encoding);
    // leading zeros do not make a value wider
    let mut bytes = vec![0u8, 0u8];
    bytes.extend(std::iter::repeat(7u8).take(256));
    assert!(bn_limb_string(&bytes).is_ok());
}
