//! The fixed seven-field public record and its projection to the three
//! field elements used as circuit instances.
//!
//! Only the folded commitment, the reference ("PQ") commitment and the
//! codebook root are bound into the circuit, in that fixed order; the
//! remaining fields exist for external auditability.

use vstd::prelude::*;
use vstd::string::StringSliceAdditionalSpecFns;
use vstd::utf8::encode_utf8;

use crate::encode::{hex_field_spec, hex_input_ok, hex_to_field};
use crate::field::FieldElem;
use crate::FoldingError;

verus! {

/// The public-input record, parsed once from external input.
/// All root and commitment fields are hex strings, optionally
/// `0x`-prefixed; the block height is a non-negative integer.
#[derive(Clone, Debug)]
pub struct ParsedPublicInputs {
    pub prev_state_root: String,
    pub new_state_root: String,
    pub block_height: u64,
    pub tx_merkle_root: String,
    pub folded_commitment: String,
    pub pq_commitment: String,
    pub codebook_root: String,
}

impl ParsedPublicInputs {
    /// The three commitment strings all carry well-formed hex.
    pub open spec fn commitments_ok(&self) -> bool {
        &&& hex_input_ok(encode_utf8(self.folded_commitment@))
        &&& hex_input_ok(encode_utf8(self.pq_commitment@))
        &&& hex_input_ok(encode_utf8(self.codebook_root@))
    }

    /// The ordered instance triple the record projects to.
    pub open spec fn instance_views(&self) -> Seq<nat> {
        seq![
            hex_field_spec(encode_utf8(self.folded_commitment@)),
            hex_field_spec(encode_utf8(self.pq_commitment@)),
            hex_field_spec(encode_utf8(self.codebook_root@)),
        ]
    }

    /// The instance vector: the encodings of the folded commitment, the
    /// PQ commitment and the codebook root, in that order. Fails with
    /// `MalformedInput` exactly when one of the three is not well-formed
    /// hex.
    pub fn to_field_elements(&self) -> (r: Result<Vec<FieldElem>, FoldingError>)
        ensures
            r is Ok <==> self.commitments_ok(),
            r matches Ok(v) ==> {
                &&& v@.len() == 3
                &&& forall|i: int| 0 <= i < 3 ==> (#[trigger] v@[i]).wf()
                &&& forall|i: int| 0 <= i < 3 ==> (#[trigger] v@[i])@ == self.instance_views()[i]
            },
            r matches Err(e) ==> e == FoldingError::MalformedInput,
    {
        let folded = match hex_to_field(self.folded_commitment.as_str()) {
            Result::Ok(fe) => fe,
            Result::Err(e) => {
                return Err(e);
            },
        };
        let pq = match hex_to_field(self.pq_commitment.as_str()) {
            Result::Ok(fe) => fe,
            Result::Err(e) => {
                return Err(e);
            },
        };
        let codebook = match hex_to_field(self.codebook_root.as_str()) {
            Result::Ok(fe) => fe,
            Result::Err(e) => {
                return Err(e);
            },
        };
        let mut v: Vec<FieldElem> = Vec::new();
        v.push(folded);
        v.push(pq);
        v.push(codebook);
        Ok(v)
    }

    /// The same triple as a fixed-size array, for binding the private
    /// commitment cells.
    pub fn commitment_fields(&self) -> (r: Result<[FieldElem; 3], FoldingError>)
        ensures
            r is Ok <==> self.commitments_ok(),
            r matches Ok(a) ==> {
                &&& forall|i: int| 0 <= i < 3 ==> (#[trigger] a@[i]).wf()
                &&& forall|i: int| 0 <= i < 3 ==> (#[trigger] a@[i])@ == self.instance_views()[i]
            },
            r matches Err(e) ==> e == FoldingError::MalformedInput,
    {
        let folded = match hex_to_field(self.folded_commitment.as_str()) {
            Result::Ok(fe) => fe,
            Result::Err(e) => {
                return Err(e);
            },
        };
        let pq = match hex_to_field(self.pq_commitment.as_str()) {
            Result::Ok(fe) => fe,
            Result::Err(e) => {
                return Err(e);
            },
        };
        let codebook = match hex_to_field(self.codebook_root.as_str()) {
            Result::Ok(fe) => fe,
            Result::Err(e) => {
                return Err(e);
            },
        };
        Ok([folded, pq, codebook])
    }
}

} // verus!
