//! A scalar of the BN254 field, carried as its canonical 32-byte
//! little-endian representation, with the arithmetic done by the
//! `halo2curves` implementation behind exact contracts.

use vstd::prelude::*;

use halo2curves::bn256::Fr;
use halo2curves::ff::Field;
use halo2curves::ff::PrimeField;

verus! {

/// The integer a byte string denotes in little-endian order.
pub open spec fn le_val(s: Seq<u8>) -> nat
    decreases s.len(),
{
    if s.len() == 0 {
        0
    } else {
        (s[0] as nat) + 256 * le_val(s.drop_first())
    }
}

/// Order of the BN254 scalar field.
pub open spec fn field_modulus() -> nat {
    0x30644e72e131a029b85045b68181585d2833e84879b9709143e1f593f0000001nat
}

/// Field addition on residues.
pub open spec fn f_add(a: nat, b: nat) -> nat {
    (a + b) % field_modulus()
}

/// Field subtraction on residues below the modulus.
pub open spec fn f_sub(a: nat, b: nat) -> nat {
    ((((a + field_modulus()) - b) % (field_modulus() as int)) as nat)
}

/// Field multiplication on residues.
pub open spec fn f_mul(a: nat, b: nat) -> nat {
    (a * b) % field_modulus()
}

/// A field element, held as the canonical little-endian byte encoding of
/// its residue. The `PartialEq` derive is for unverified callers; verified
/// code compares through `fe_eq`.
#[derive(Clone, Copy, Debug, PartialEq, Eq)]
pub struct FieldElem {
    pub bytes: [u8; 32],
}

impl View for FieldElem {
    type V = nat;

    open spec fn view(&self) -> nat {
        le_val(self.bytes@)
    }
}

impl FieldElem {
    /// The encoding is canonical: it denotes a residue of the field.
    pub open spec fn wf(&self) -> bool {
        self@ < field_modulus()
    }
}

proof fn lemma_le_val_parts(s: Seq<u8>)
    requires
        s.len() > 0,
    ensures
        le_val(s) % 256 == s[0],
        le_val(s) / 256 == le_val(s.drop_first()),
{
    let rest = le_val(s.drop_first());
    assert(le_val(s) == (s[0] as nat) + 256 * rest);
    assert(((s[0] as nat) + 256 * rest) % 256 == s[0] as nat) by (nonlinear_arith)
        requires
            0 <= (s[0] as nat) < 256,
    ;
    assert(((s[0] as nat) + 256 * rest) / 256 == rest) by (nonlinear_arith)
        requires
            0 <= (s[0] as nat) < 256,
    ;
}

/// Equal little-endian values of equal length have equal bytes.
proof fn lemma_le_val_injective(s1: Seq<u8>, s2: Seq<u8>)
    requires
        s1.len() == s2.len(),
        le_val(s1) == le_val(s2),
    ensures
        s1 =~= s2,
    decreases s1.len(),
{
    if s1.len() > 0 {
        lemma_le_val_parts(s1);
        lemma_le_val_parts(s2);
        lemma_le_val_injective(s1.drop_first(), s2.drop_first());
        assert forall|i: int| 0 <= i < s1.len() implies s1[i] == s2[i] by {
            if i > 0 {
                assert(s1.drop_first()[i - 1] == s2.drop_first()[i - 1]);
            }
        }
    }
}

/// A byte string of zeros denotes zero.
pub proof fn lemma_le_val_zero(s: Seq<u8>)
    requires
        forall|i: int| 0 <= i < s.len() ==> s[i] == 0,
    ensures
        le_val(s) == 0,
    decreases s.len(),
{
    if s.len() > 0 {
        lemma_le_val_zero(s.drop_first());
    }
}

/// The zero field element.
pub fn fe_zero() -> (r: FieldElem)
    ensures
        r@ == 0,
        r.wf(),
{
    let bytes: [u8; 32] = [0; 32];
    proof {
        lemma_le_val_zero(bytes@);
    }
    FieldElem { bytes }
}

/// Equality of field elements, decided on the byte encoding.
pub fn fe_eq(a: &FieldElem, b: &FieldElem) -> (r: bool)
    ensures
        r == (a@ == b@),
{
    let mut i: usize = 0;
    while i < 32
        invariant
            i <= 32,
            forall|j: int| 0 <= j < i ==> a.bytes@[j] == b.bytes@[j],
        decreases 32 - i,
    {
        if a.bytes[i] != b.bytes[i] {
            proof {
                if a@ == b@ {
                    lemma_le_val_injective(a.bytes@, b.bytes@);
                }
            }
            return false;
        }
        i += 1;
    }
    proof {
        assert(a.bytes@ =~= b.bytes@);
    }
    true
}

/// Relies on `halo2curves` `Fr::from_repr` / `Fr::to_repr`: the canonical
/// little-endian representation of a BN254 scalar, and on field addition.
#[verifier::external_body]
pub fn fr_add(a: &FieldElem, b: &FieldElem) -> (r: FieldElem)
    requires
        a.wf(),
        b.wf(),
    ensures
        r.wf(),
        r@ == f_add(a@, b@),
{
    let x = Fr::from_repr(a.bytes.into()).unwrap();
    let y = Fr::from_repr(b.bytes.into()).unwrap();
    FieldElem { bytes: (x + y).to_repr().into() }
}

/// Relies on `halo2curves` `Fr::from_repr` / `Fr::to_repr` and on field
/// subtraction.
#[verifier::external_body]
pub fn fr_sub(a: &FieldElem, b: &FieldElem) -> (r: FieldElem)
    requires
        a.wf(),
        b.wf(),
    ensures
        r.wf(),
        r@ == f_sub(a@, b@),
{
    let x = Fr::from_repr(a.bytes.into()).unwrap();
    let y = Fr::from_repr(b.bytes.into()).unwrap();
    FieldElem { bytes: (x - y).to_repr().into() }
}

/// Relies on `halo2curves` `Fr::from_repr` / `Fr::to_repr` and on field
/// multiplication.
#[verifier::external_body]
pub fn fr_mul(a: &FieldElem, b: &FieldElem) -> (r: FieldElem)
    requires
        a.wf(),
        b.wf(),
    ensures
        r.wf(),
        r@ == f_mul(a@, b@),
{
    let x = Fr::from_repr(a.bytes.into()).unwrap();
    let y = Fr::from_repr(b.bytes.into()).unwrap();
    FieldElem { bytes: (x * y).to_repr().into() }
}

/// Relies on `halo2curves` `Fr::from(u64)`: embeds an integer below the
/// modulus as the residue it denotes.
#[verifier::external_body]
pub fn fr_from_u64(v: u64) -> (r: FieldElem)
    ensures
        r.wf(),
        r@ == v as nat,
{
    FieldElem { bytes: Fr::from(v).to_repr().into() }
}

/// Relies on `halo2curves` `Fr::from_repr`: it accepts exactly the
/// canonical encodings, the byte strings denoting a value below the
/// modulus.
#[verifier::external_body]
pub fn fe_is_canonical(fe: &FieldElem) -> (r: bool)
    ensures
        r == fe.wf(),
{
    bool::from(Fr::from_repr(fe.bytes.into()).is_some())
}

/// Relies on `halo2curves` `Fr::invert`: the multiplicative inverse of a
/// nonzero field element.
#[verifier::external_body]
pub fn fr_invert(a: &FieldElem) -> (r: FieldElem)
    requires
        a.wf(),
        a@ != 0,
    ensures
        r.wf(),
        f_mul(r@, a@) == 1,
{
    let x = Fr::from_repr(a.bytes.into()).unwrap();
    FieldElem { bytes: x.invert().unwrap().to_repr().into() }
}

} // verus!
