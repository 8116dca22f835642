//! Arithmetized bounded-difference relation over batched vectors, with
//! deterministic public-input encoding and reproducible key-material
//! configuration for an external proving engine.

use vstd::prelude::*;

pub mod circuit;
pub mod encode;
pub mod field;
pub mod keys;
pub mod public_inputs;

pub use circuit::FoldedCircuit;
pub use public_inputs::ParsedPublicInputs;

verus! {

/// Failure modes surfaced by this library.
///
/// `MalformedInput` covers bad hex in a commitment string; `RelationError`
/// is a per-batch length mismatch inside the arithmetized relation;
/// `ConfigMismatch` and `ConfigDesync` are key-material disagreements
/// between a stored configuration and the one requested or derived.
#[derive(Clone, Copy, Debug, PartialEq, Eq, Structural)]
pub enum FoldingError {
    MalformedInput,
    RelationError,
    ConfigMismatch,
    ConfigDesync,
}

} // verus!
