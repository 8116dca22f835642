use folding_halo2::encode::{
    decode_fixed_point, encode_fixed_point, field_from_seed, from_i64, hex_to_field, scale_inv,
};
use folding_halo2::FoldingError;

use halo2curves::bn256::Fr;
use halo2curves::ff::Field;
use halo2curves::ff::PrimeField;
use rand::SeedableRng;
use rand_chacha::ChaCha20Rng;

#[test]
fn hex_encoding_is_deterministic() {
    let a = hex_to_field("0xdeadbeef").unwrap();
    let b = hex_to_field("0xdeadbeef").unwrap();
    assert_eq!(a.bytes, b.bytes);
}

#[test]
fn distinct_hex_strings_encode_to_distinct_elements() {
    let inputs = [
        "0x00", "0x01", "0xdeadbeef", "0xdeadbeee", "1234", "12345678", "0xffffffff", "",
        "0xabcdef0123456789",
    ];
    let encoded: Vec<[u8; 32]> = inputs.iter().map(|s| hex_to_field(s).unwrap().bytes).collect();
    for i in 0..encoded.len() {
        for j in 0..encoded.len() {
            if i != j {
                assert_ne!(encoded[i], encoded[j], "collision between {:?} and {:?}", inputs[i], inputs[j]);
            }
        }
    }
}

#[test]
fn empty_commitment_encodes_from_all_zero_seed() {
    let from_prefixed = hex_to_field("0x").unwrap();
    let from_upper = hex_to_field("0X").unwrap();
    let from_empty = hex_to_field("").unwrap();
    let reference = field_from_seed(&[0u8; 32]);
    assert_eq!(from_prefixed.bytes, reference.bytes);
    assert_eq!(from_upper.bytes, reference.bytes);
    assert_eq!(from_empty.bytes, reference.bytes);
}

#[test]
fn hex_encoding_matches_hash_then_draw() {
    // The same pipeline built directly from the outside crates: decode,
    // hash, seed a generator, draw one element.
    let encoded = hex_to_field("0xdeadbeef").unwrap();
    let bytes = hex::decode("deadbeef").unwrap();
    let digest = *blake3::hash(&bytes).as_bytes();
    let mut rng = ChaCha20Rng::from_seed(digest);
    let expected = Fr::random(&mut rng);
    let expected_bytes: [u8; 32] = expected.to_repr().into();
    assert_eq!(encoded.bytes, expected_bytes);
}

#[test]
fn malformed_hex_is_rejected() {
    assert_eq!(hex_to_field("0xzz"), Err(FoldingError::MalformedInput));
    assert_eq!(hex_to_field("0x123"), Err(FoldingError::MalformedInput));
    assert_eq!(hex_to_field("g"), Err(FoldingError::MalformedInput));
    assert!(hex_to_field("0x1234").is_ok());
}

#[test]
fn scale_inverse_matches_field_inversion() {
    let inv = scale_inv();
    let expected = Fr::from(1_000_000u64).invert().unwrap();
    let expected_bytes: [u8; 32] = expected.to_repr().into();
    assert_eq!(inv.bytes, expected_bytes);
}

#[test]
fn signed_mapping_matches_field_negation() {
    let neg = from_i64(-7);
    let expected = -Fr::from(7u64);
    let expected_bytes: [u8; 32] = expected.to_repr().into();
    assert_eq!(neg.bytes, expected_bytes);
    let pos = from_i64(42);
    let expected_pos: [u8; 32] = Fr::from(42u64).to_repr().into();
    assert_eq!(pos.bytes, expected_pos);
}

#[test]
fn fixed_point_round_trip_is_exact() {
    let inv = scale_inv();
    for micro in [0i64, 1, -1, 1_000_000, -1_000_000, 123_456_789, -987_654_321, i64::MAX, -i64::MAX]
    {
        let encoded = encode_fixed_point(micro, &inv);
        assert_eq!(decode_fixed_point(&encoded), Some(micro), "round trip failed at {}", micro);
    }
}

#[test]
fn decoding_rejects_a_non_embedding() {
    // 2^128 scaled back up lands far from both ends of the field.
    let mut bytes = [0u8; 32];
    bytes[16] = 1;
    let fe = folding_halo2::field::FieldElem { bytes };
    assert_eq!(decode_fixed_point(&fe), None);
}

#[test]
fn fixed_point_embedding_is_linear() {
    // encode(a) + encode(b) agrees with encode(a + b) at fixed precision.
    let inv = scale_inv();
    let a = encode_fixed_point(1_500_000, &inv);
    let b = encode_fixed_point(-2_750_000, &inv);
    let a_fr = Fr::from_repr(a.bytes.into()).unwrap();
    let b_fr = Fr::from_repr(b.bytes.into()).unwrap();
    let sum_bytes: [u8; 32] = (a_fr + b_fr).to_repr().into();
    let direct = encode_fixed_point(-1_250_000, &inv);
    assert_eq!(sum_bytes, direct.bytes);
}
