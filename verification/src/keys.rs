//! Key-material configuration: the circuit size parameter paired with a
//! 32-byte seed, persisted once and shared read-only between the prover
//! and verifier roles. Both roles re-derive commitment-scheme parameters
//! and keys deterministically from this pair, so any disagreement is a
//! hard error, never a silent overwrite.
//!
//! Reading and writing the two on-disk files is the caller's concern;
//! the decisions — accept, reject, or write — are made here over the
//! file contents as plain values.

use vstd::prelude::*;

use crate::FoldingError;

verus! {

/// The persisted configuration: the size parameter the circuit was
/// compiled for and the seed of the deterministic parameter setup.
#[derive(Clone, Copy, Debug, PartialEq, Eq)]
pub struct KeyConfig {
    pub circuit_k: u32,
    pub seed: [u8; 32],
}

/// Two configurations agree bit for bit.
pub open spec fn config_agrees(a: KeyConfig, b: KeyConfig) -> bool {
    a.circuit_k == b.circuit_k && a.seed@ == b.seed@
}

/// What resolving the prover-side configuration yields: the stored pair
/// when its size parameter matches the request, `ConfigMismatch` when it
/// does not, and a fresh pair (to be written) when none is stored.
pub open spec fn resolve_config_spec(
    existing: Option<KeyConfig>,
    requested_k: u32,
    fresh_seed: [u8; 32],
) -> Result<(KeyConfig, bool), FoldingError> {
    match existing {
        Option::Some(cfg) => {
            if cfg.circuit_k == requested_k {
                Result::Ok((cfg, false))
            } else {
                Result::Err(FoldingError::ConfigMismatch)
            }
        },
        Option::None => Result::Ok(
            (KeyConfig { circuit_k: requested_k, seed: fresh_seed }, true),
        ),
    }
}

/// What checking the verifier-side file against the prover's resolved
/// configuration yields: nothing to do when the stored pair agrees bit
/// for bit, `ConfigDesync` when it does not, and a write when none is
/// stored.
pub open spec fn ensure_config_spec(existing: Option<KeyConfig>, config: KeyConfig) -> Result<
    bool,
    FoldingError,
> {
    match existing {
        Option::Some(stored) => {
            if config_agrees(stored, config) {
                Result::Ok(false)
            } else {
                Result::Err(FoldingError::ConfigDesync)
            }
        },
        Option::None => Result::Ok(true),
    }
}

/// Byte-for-byte equality of two seeds.
fn seeds_equal(a: &[u8; 32], b: &[u8; 32]) -> (r: bool)
    ensures
        r == (a@ == b@),
{
    let mut i: usize = 0;
    while i < 32
        invariant
            i <= 32,
            forall|j: int| 0 <= j < i ==> a@[j] == b@[j],
        decreases 32 - i,
    {
        if a[i] != b[i] {
            proof {
                assert(a@[i as int] != b@[i as int]);
            }
            return false;
        }
        i += 1;
    }
    proof {
        assert(a@ =~= b@);
    }
    true
}

/// Resolve the prover-side configuration: keep a stored pair whose size
/// parameter equals the request, reject one whose size differs with
/// `ConfigMismatch`, and pair the request with the fresh seed — to be
/// persisted, as the second component says — when nothing is stored.
pub fn load_or_create_config(
    existing: Option<KeyConfig>,
    requested_k: u32,
    fresh_seed: [u8; 32],
) -> (r: Result<(KeyConfig, bool), FoldingError>)
    ensures
        r == resolve_config_spec(existing, requested_k, fresh_seed),
{
    match existing {
        Option::Some(cfg) => {
            if cfg.circuit_k == requested_k {
                Ok((cfg, false))
            } else {
                Err(FoldingError::ConfigMismatch)
            }
        },
        Option::None => Ok((KeyConfig { circuit_k: requested_k, seed: fresh_seed }, true)),
    }
}

/// Check the verifier-side file against the prover's configuration:
/// accept a stored pair exactly when it agrees bit for bit (otherwise
/// `ConfigDesync`), and ask for a write — `Ok(true)` — when nothing is
/// stored, which synchronizes the two roles through the filesystem.
pub fn ensure_config(existing: Option<KeyConfig>, config: &KeyConfig) -> (r: Result<
    bool,
    FoldingError,
>)
    ensures
        r == ensure_config_spec(existing, *config),
{
    match existing {
        Option::Some(stored) => {
            if stored.circuit_k == config.circuit_k && seeds_equal(&stored.seed, &config.seed) {
                Ok(false)
            } else {
                Err(FoldingError::ConfigDesync)
            }
        },
        Option::None => Ok(true),
    }
}

/// The verifier-side file contents once synchronization has succeeded:
/// the stored pair if one was there, else the prover's pair just
/// written.
pub open spec fn verifier_file_after_sync(
    existing: Option<KeyConfig>,
    config: KeyConfig,
) -> Option<KeyConfig> {
    match existing {
        Option::Some(stored) => Option::Some(stored),
        Option::None => Option::Some(config),
    }
}

/// Round trip of the key material: when the prover resolves its
/// configuration against the requested size and synchronizes the
/// verifier-side file without error, that file afterwards holds exactly
/// the prover's `(size, seed)` pair. Both roles therefore seed the
/// deterministic parameter setup with identical inputs, so the derived
/// parameters and the verifying key coincide.
pub proof fn lemma_key_material_round_trip(
    existing_prover: Option<KeyConfig>,
    existing_verifier: Option<KeyConfig>,
    requested_k: u32,
    fresh_seed: [u8; 32],
)
    requires
        resolve_config_spec(existing_prover, requested_k, fresh_seed) is Ok,
        ensure_config_spec(
            existing_verifier,
            resolve_config_spec(existing_prover, requested_k, fresh_seed)->Ok_0.0,
        ) is Ok,
    ensures
        ({
            let config = resolve_config_spec(existing_prover, requested_k, fresh_seed)->Ok_0.0;
            &&& config.circuit_k == requested_k
            &&& verifier_file_after_sync(existing_verifier, config) matches Option::Some(held)
                && config_agrees(held, config)
        }),
{
}

} // verus!
