use folding_halo2::keys::{ensure_config, load_or_create_config, KeyConfig};
use folding_halo2::FoldingError;

#[test]
fn first_run_creates_and_synchronizes_the_config() {
    let seed = [7u8; 32];
    let (config, must_write) = load_or_create_config(None, 12, seed).unwrap();
    assert!(must_write);
    assert_eq!(config.circuit_k, 12);
    assert_eq!(config.seed, seed);

    // Verifier side holds nothing yet: the prover's pair is written.
    assert_eq!(ensure_config(None, &config), Ok(true));

    // A later verifier run reads back exactly that pair.
    assert_eq!(ensure_config(Some(config), &config), Ok(false));
}

#[test]
fn stored_config_wins_over_a_fresh_seed() {
    let stored = KeyConfig { circuit_k: 12, seed: [1u8; 32] };
    let (config, must_write) = load_or_create_config(Some(stored), 12, [9u8; 32]).unwrap();
    assert!(!must_write);
    assert_eq!(config.seed, [1u8; 32]);
}

#[test]
fn size_disagreement_is_a_config_mismatch() {
    let stored = KeyConfig { circuit_k: 12, seed: [1u8; 32] };
    assert_eq!(
        load_or_create_config(Some(stored), 13, [9u8; 32]),
        Err(FoldingError::ConfigMismatch)
    );
}

#[test]
fn seed_disagreement_is_a_config_desync() {
    let config = KeyConfig { circuit_k: 12, seed: [1u8; 32] };
    let mut other = config;
    other.seed[31] = 2;
    assert_eq!(ensure_config(Some(other), &config), Err(FoldingError::ConfigDesync));
    let mut other_k = config;
    other_k.circuit_k = 11;
    assert_eq!(ensure_config(Some(other_k), &config), Err(FoldingError::ConfigDesync));
}

#[test]
fn both_roles_derive_from_identical_inputs() {
    // The round trip: resolve on the prover side, synchronize, then read
    // back on the verifier side; the seeds handed to parameter setup are
    // bit-for-bit equal.
    let fresh = [42u8; 32];
    let (prover_config, must_write) = load_or_create_config(None, 10, fresh).unwrap();
    assert!(must_write);
    let verifier_file = match ensure_config(None, &prover_config) {
        Ok(true) => Some(prover_config),
        Ok(false) => unreachable!(),
        Err(_) => unreachable!(),
    };
    let held = verifier_file.unwrap();
    assert_eq!(held.circuit_k, prover_config.circuit_k);
    assert_eq!(held.seed, prover_config.seed);
}
