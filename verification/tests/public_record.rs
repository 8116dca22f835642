use folding_halo2::encode::hex_to_field;
use folding_halo2::ParsedPublicInputs;
use folding_halo2::FoldingError;

fn record() -> ParsedPublicInputs {
    ParsedPublicInputs {
        prev_state_root: "0x11".to_string(),
        new_state_root: "0x22".to_string(),
        block_height: 7,
        tx_merkle_root: "0x33".to_string(),
        folded_commitment: "0xaabb".to_string(),
        pq_commitment: "0xccdd".to_string(),
        codebook_root: "0xeeff".to_string(),
    }
}

#[test]
fn instance_vector_is_the_ordered_commitment_triple() {
    let r = record();
    let v = r.to_field_elements().unwrap();
    assert_eq!(v.len(), 3);
    assert_eq!(v[0].bytes, hex_to_field("0xaabb").unwrap().bytes);
    assert_eq!(v[1].bytes, hex_to_field("0xccdd").unwrap().bytes);
    assert_eq!(v[2].bytes, hex_to_field("0xeeff").unwrap().bytes);
}

#[test]
fn commitment_fields_agree_with_the_instance_vector() {
    let r = record();
    let v = r.to_field_elements().unwrap();
    let a = r.commitment_fields().unwrap();
    assert_eq!(a[0].bytes, v[0].bytes);
    assert_eq!(a[1].bytes, v[1].bytes);
    assert_eq!(a[2].bytes, v[2].bytes);
}

#[test]
fn empty_prefixed_commitment_is_legal() {
    let mut r = record();
    r.folded_commitment = "0x".to_string();
    let v = r.to_field_elements().unwrap();
    assert_eq!(v[0].bytes, hex_to_field("").unwrap().bytes);
}

#[test]
fn bad_commitment_hex_is_malformed_input() {
    let mut r = record();
    r.pq_commitment = "0xnothex".to_string();
    assert!(matches!(r.to_field_elements(), Err(FoldingError::MalformedInput)));
    assert!(matches!(r.commitment_fields(), Err(FoldingError::MalformedInput)));
    // The other four fields are not bound into the circuit.
    let mut r2 = record();
    r2.prev_state_root = "not hex at all".to_string();
    assert!(r2.to_field_elements().is_ok());
}
