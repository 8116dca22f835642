//! Deterministic mapping from commitment hex strings and fixed-point
//! integers to field elements.
//!
//! A hex string (optionally `0x`/`0X`-prefixed) is decoded to bytes,
//! hashed to a 32-byte seed (the all-zero seed for an empty string), and
//! one field element is drawn from a generator keyed by that seed. A real
//! number is carried as an integer count of `1e-6` units and embedded as
//! that count times the field inverse of the scale, so in-field addition
//! and subtraction agree with fixed-point arithmetic.

use vstd::prelude::*;
use vstd::arithmetic::div_mod::{
    lemma_mul_mod_noop_left, lemma_mul_mod_noop_right, lemma_small_mod,
};
use vstd::string::StringSliceAdditionalSpecFns;

use crate::field::{
    f_mul, fe_zero, field_modulus, fr_from_u64, fr_invert, fr_mul, fr_sub, le_val,
    FieldElem,
};
use crate::FoldingError;

use halo2curves::bn256::Fr;
use halo2curves::ff::Field;
use halo2curves::ff::PrimeField;
use rand::SeedableRng;
use rand_chacha::ChaCha20Rng;

verus! {

/// One fixed-point unit is `1e-6`: values are scaled by this constant.
pub const SCALE: u64 = 1_000_000;

/// An ASCII hexadecimal digit.
pub open spec fn is_hex_digit(b: u8) -> bool {
    (0x30 <= b <= 0x39) || (0x41 <= b <= 0x46) || (0x61 <= b <= 0x66)
}

/// Value of an ASCII hexadecimal digit.
pub open spec fn hex_digit_val(b: u8) -> nat {
    if 0x30 <= b <= 0x39 {
        (b - 0x30) as nat
    } else if 0x41 <= b <= 0x46 {
        (b - 0x41 + 10) as nat
    } else {
        (b - 0x61 + 10) as nat
    }
}

/// An even-length string of hexadecimal digits, as bytes.
pub open spec fn is_hex_str(s: Seq<u8>) -> bool {
    s.len() % 2 == 0 && (forall|i: int| 0 <= i < s.len() ==> is_hex_digit(s[i]))
}

/// The bytes a hexadecimal string denotes, two digits per byte.
pub open spec fn hex_bytes(s: Seq<u8>) -> Seq<u8> {
    Seq::new(s.len() / 2, |i: int| (16 * hex_digit_val(s[2 * i]) + hex_digit_val(s[2 * i + 1])) as u8)
}

/// A leading `0x` or `0X` is dropped; anything else is kept whole.
pub open spec fn strip_hex_prefix(s: Seq<u8>) -> Seq<u8> {
    if s.len() >= 2 && s[0] == 0x30u8 && (s[1] == 0x78u8 || s[1] == 0x58u8) {
        s.skip(2)
    } else {
        s
    }
}

/// The digest `blake3::hash` assigns to a byte string.
pub uninterp spec fn blake3_digest(data: Seq<u8>) -> Seq<u8>;

/// The residue drawn for a 32-byte seed by the keyed generator.
pub uninterp spec fn field_drawn_from_seed(seed: Seq<u8>) -> nat;

/// The all-zero 32-byte seed, used for an empty commitment string.
pub open spec fn zero_seed() -> Seq<u8> {
    Seq::new(32, |i: int| 0u8)
}

/// The seed a byte string hashes to.
pub open spec fn seed_of_bytes(data: Seq<u8>) -> Seq<u8> {
    if data.len() == 0 {
        zero_seed()
    } else {
        blake3_digest(data)
    }
}

/// Whether a commitment hex string is well formed after prefix stripping.
pub open spec fn hex_input_ok(s: Seq<u8>) -> bool {
    is_hex_str(strip_hex_prefix(s))
}

/// The residue a well-formed commitment hex string encodes to.
pub open spec fn hex_field_spec(s: Seq<u8>) -> nat {
    field_drawn_from_seed(seed_of_bytes(hex_bytes(strip_hex_prefix(s))))
}

/// Relies on `hex::decode`: it succeeds exactly on an even-length string
/// of ASCII hexadecimal digits and returns the bytes the digit pairs
/// denote; the tail of the input from `start` is decoded.
#[verifier::external_body]
fn hex_decode_tail(s: &[u8], start: usize) -> (r: Result<Vec<u8>, FoldingError>)
    requires
        start <= s@.len(),
    ensures
        r is Ok <==> is_hex_str(s@.skip(start as int)),
        r matches Ok(b) ==> b@ == hex_bytes(s@.skip(start as int)),
        r matches Err(e) ==> e == FoldingError::MalformedInput,
{
    hex::decode(&s[start..]).map_err(|_| FoldingError::MalformedInput)
}

/// Relies on `blake3::hash`: a 32-byte digest that depends on the input
/// bytes alone.
#[verifier::external_body]
fn blake3_hash32(data: &[u8]) -> (r: [u8; 32])
    ensures
        r@ == blake3_digest(data@),
{
    *blake3::hash(data).as_bytes()
}

/// Relies on `rand_chacha::ChaCha20Rng::from_seed` and `halo2curves`
/// `Fr::random`: the generator's byte stream is a function of the seed
/// alone, so the element drawn is too, and its canonical representation
/// denotes a residue of the field.
#[verifier::external_body]
fn draw_field_from_seed(seed: &[u8; 32]) -> (r: FieldElem)
    ensures
        r.wf(),
        r@ == field_drawn_from_seed(seed@),
{
    let mut rng = ChaCha20Rng::from_seed(*seed);
    FieldElem { bytes: Fr::random(&mut rng).to_repr().into() }
}

/// Keyed drawing of a field element from an explicit 32-byte seed: the
/// deterministic source both of commitment encodings (seeded by a digest)
/// and, at the engine boundary, of reproducible parameter setup.
pub fn field_from_seed(seed: &[u8; 32]) -> (r: FieldElem)
    ensures
        r.wf(),
        r@ == field_drawn_from_seed(seed@),
{
    draw_field_from_seed(seed)
}

/// Deterministic, collision-resistant encoding of a commitment hex string
/// as a field element. Returns `MalformedInput` exactly when the string,
/// after an optional `0x`/`0X` prefix, is not an even-length string of
/// hexadecimal digits; the empty string is legal and is drawn from the
/// all-zero seed.
pub fn hex_to_field(s: &str) -> (r: Result<FieldElem, FoldingError>)
    ensures
        r is Ok <==> hex_input_ok(s.spec_bytes()),
        r matches Ok(fe) ==> fe.wf() && fe@ == hex_field_spec(s.spec_bytes()),
        r matches Err(e) ==> e == FoldingError::MalformedInput,
{
    let bytes: &[u8] = s.as_bytes();
    let start: usize = if bytes.len() >= 2 && bytes[0] == 0x30 && (bytes[1] == 0x78 || bytes[1]
        == 0x58) {
        2
    } else {
        0
    };
    proof {
        assert(s.spec_bytes().skip(start as int) =~= strip_hex_prefix(s.spec_bytes()));
    }
    let data = match hex_decode_tail(bytes, start) {
        Result::Ok(d) => d,
        Result::Err(e) => {
            return Err(e);
        },
    };
    if data.len() == 0 {
        let seed: [u8; 32] = [0; 32];
        proof {
            assert(seed@ =~= zero_seed());
        }
        Ok(draw_field_from_seed(&seed))
    } else {
        let seed = blake3_hash32(data.as_slice());
        Ok(draw_field_from_seed(&seed))
    }
}

/// A residue below the modulus representing a signed integer: a
/// non-negative value directly, a negative one as the additive inverse of
/// its absolute value.
pub open spec fn signed_residue(v: int) -> nat
    recommends
        -(field_modulus() as int) < v < field_modulus() as int,
{
    if v >= 0 {
        v as nat
    } else {
        (field_modulus() as int + v) as nat
    }
}

/// The field inverse of the fixed-point scale, computed once and passed
/// explicitly to the encoder.
pub fn scale_inv() -> (r: FieldElem)
    ensures
        r.wf(),
        f_mul(r@, SCALE as nat) == 1,
{
    let s = fr_from_u64(SCALE);
    fr_invert(&s)
}

/// A signed integer mapped into the field: non-negative values directly,
/// negative values to the additive inverse of their absolute value.
pub fn from_i64(v: i64) -> (r: FieldElem)
    requires
        v > i64::MIN,
    ensures
        r.wf(),
        r@ == signed_residue(v as int),
{
    if v >= 0 {
        fr_from_u64(v as u64)
    } else {
        let zero = fe_zero();
        let abs = fr_from_u64((-v) as u64);
        let r = fr_sub(&zero, &abs);
        proof {
            lemma_small_mod((field_modulus() - abs@) as nat, field_modulus());
        }
        r
    }
}

/// Fixed-point embedding of a count of `1e-6` units: the count mapped
/// into the field, times the inverse of the scale. Linear in the count,
/// so in-field sums and differences agree with fixed-point arithmetic.
pub fn encode_fixed_point(micro: i64, inv: &FieldElem) -> (r: FieldElem)
    requires
        micro > i64::MIN,
        inv.wf(),
        f_mul(inv@, SCALE as nat) == 1,
    ensures
        r.wf(),
        r@ == f_mul(signed_residue(micro as int), inv@),
{
    let base = from_i64(micro);
    fr_mul(&base, inv)
}

/// The residues of a matrix of fixed-point counts under the embedding.
pub open spec fn fixed_matrix_views(m: Seq<Vec<i64>>, inv: nat) -> Seq<Seq<nat>> {
    m.map_values(|row: Vec<i64>| row@.map_values(|v: i64| f_mul(signed_residue(v as int), inv)))
}

/// Embed a matrix of fixed-point counts into the field, row by row.
pub fn to_field_matrix(micro: &Vec<Vec<i64>>, inv: &FieldElem) -> (r: Vec<Vec<FieldElem>>)
    requires
        inv.wf(),
        f_mul(inv@, SCALE as nat) == 1,
        forall|b: int, j: int|
            0 <= b < micro@.len() && 0 <= j < micro@[b]@.len() ==> (#[trigger] micro@[b]@[j])
                > i64::MIN,
    ensures
        r@.len() == micro@.len(),
        forall|b: int|
            0 <= b < r@.len() ==> (#[trigger] r@[b])@.len() == micro@[b]@.len(),
        forall|b: int, j: int|
            0 <= b < r@.len() && 0 <= j < r@[b]@.len() ==> (#[trigger] r@[b]@[j]).wf(),
        forall|b: int, j: int|
            0 <= b < r@.len() && 0 <= j < r@[b]@.len() ==> (#[trigger] r@[b]@[j])@
                == fixed_matrix_views(micro@, inv@)[b][j],
{
    let mut out: Vec<Vec<FieldElem>> = Vec::new();
    let mut b: usize = 0;
    while b < micro.len()
        invariant
            inv.wf(),
            f_mul(inv@, SCALE as nat) == 1,
            forall|k: int, j: int|
                0 <= k < micro@.len() && 0 <= j < micro@[k]@.len() ==> (#[trigger] micro@[k]@[j])
                    > i64::MIN,
            b <= micro@.len(),
            out@.len() == b,
            forall|k: int|
                0 <= k < b ==> (#[trigger] out@[k])@.len() == micro@[k]@.len(),
            forall|k: int, j: int|
                0 <= k < b && 0 <= j < out@[k]@.len() ==> (#[trigger] out@[k]@[j]).wf(),
            forall|k: int, j: int|
                0 <= k < b && 0 <= j < out@[k]@.len() ==> (#[trigger] out@[k]@[j])@ == f_mul(
                    signed_residue(micro@[k]@[j] as int),
                    inv@,
                ),
        decreases micro@.len() - b,
    {
        let row = &micro[b];
        let mut out_row: Vec<FieldElem> = Vec::new();
        let mut j: usize = 0;
        while j < row.len()
            invariant
                inv.wf(),
                f_mul(inv@, SCALE as nat) == 1,
                0 <= b < micro@.len(),
                row == micro@[b as int],
                forall|jj: int| 0 <= jj < row@.len() ==> (#[trigger] row@[jj]) > i64::MIN,
                j <= row@.len(),
                out_row@.len() == j,
                forall|jj: int| 0 <= jj < j ==> (#[trigger] out_row@[jj]).wf(),
                forall|jj: int|
                    0 <= jj < j ==> (#[trigger] out_row@[jj])@ == f_mul(
                        signed_residue(row@[jj] as int),
                        inv@,
                    ),
            decreases row@.len() - j,
        {
            let fe = encode_fixed_point(row[j], inv);
            out_row.push(fe);
            j += 1;
        }
        out.push(out_row);
        b += 1;
    }
    out
}

/// Reversal of the fixed-point embedding: scale the residue back up and
/// read it as a signed count of `1e-6` units, if it is small enough on
/// either side of zero to be one.
pub open spec fn decode_fixed_spec(x: nat) -> Option<i64> {
    let y = f_mul(x, SCALE as nat);
    if y <= i64::MAX as nat {
        Some(y as i64)
    } else if y >= field_modulus() - i64::MAX {
        Some((y - field_modulus()) as i64)
    } else {
        None
    }
}

/// Decode a fixed-point field element back to its signed count of `1e-6`
/// units, reversing scale and sign; `None` if the element is not such an
/// embedding.
pub fn decode_fixed_point(fe: &FieldElem) -> (r: Option<i64>)
    requires
        fe.wf(),
    ensures
        r == decode_fixed_spec(fe@),
{
    let scale_fe = fr_from_u64(SCALE);
    let scaled = fr_mul(fe, &scale_fe);
    match fe_small_value(&scaled) {
        Option::Some(v) => {
            if v <= i64::MAX as u64 {
                Some(v as i64)
            } else {
                decode_negative(&scaled)
            }
        },
        Option::None => decode_negative(&scaled),
    }
}

/// Decode the negative side: a residue within `i64::MAX` of the modulus
/// is the embedding of its (negative) distance from it.
fn decode_negative(scaled: &FieldElem) -> (r: Option<i64>)
    requires
        scaled.wf(),
        scaled@ > i64::MAX as nat,
    ensures
        r == (if scaled@ >= field_modulus() - i64::MAX {
            Some((scaled@ - field_modulus()) as i64)
        } else {
            Option::<i64>::None
        }),
{
    let zero = fe_zero();
    let neg = fr_sub(&zero, scaled);
    proof {
        lemma_small_mod((field_modulus() - scaled@) as nat, field_modulus());
    }
    match fe_small_value(&neg) {
        Option::Some(n) => {
            if n <= i64::MAX as u64 && n > 0 {
                Some(-(n as i64))
            } else {
                None
            }
        },
        Option::None => None,
    }
}

/// Split the little-endian value at a byte position.
proof fn lemma_le_val_split(s: Seq<u8>, k: int)
    requires
        0 <= k <= s.len(),
    ensures
        le_val(s) == le_val(s.take(k)) + pow256(k) * le_val(s.skip(k)),
    decreases k,
{
    if k == 0 {
        assert(s.take(0) =~= Seq::<u8>::empty());
        assert(s.skip(0) =~= s);
        assert(le_val(Seq::<u8>::empty()) == 0);
        assert(le_val(s.take(0)) == 0);
        assert(pow256(0) == 1);
        assert(le_val(s) == le_val(s.take(0)) + 1 * le_val(s.skip(0)));
    } else {
        assert(s.len() > 0);
        lemma_le_val_split(s.drop_first(), k - 1);
        assert(s.take(k).drop_first() =~= s.drop_first().take(k - 1));
        assert(s.drop_first().skip(k - 1) =~= s.skip(k));
        assert(le_val(s.take(k)) == (s[0] as nat) + 256 * le_val(s.drop_first().take(k - 1)));
        assert(le_val(s) == (s[0] as nat) + 256 * le_val(s.drop_first()));
        assert(256 * (le_val(s.drop_first().take(k - 1)) + pow256(k - 1) * le_val(s.skip(k))) == 256
            * le_val(s.drop_first().take(k - 1)) + 256 * pow256(k - 1) * le_val(s.skip(k)))
            by (nonlinear_arith);
        assert(256 * pow256(k - 1) * le_val(s.skip(k)) == pow256(k) * le_val(s.skip(k)))
            by (nonlinear_arith)
            requires
                pow256(k) == 256 * pow256(k - 1),
        ;
        assert(le_val(s.drop_first()) == le_val(s.drop_first().take(k - 1)) + pow256(k - 1)
            * le_val(s.skip(k)));
        assert(le_val(s) == le_val(s.take(k)) + pow256(k) * le_val(s.skip(k)));
    }
}

/// Powers of 256.
pub open spec fn pow256(k: int) -> nat
    decreases k,
{
    if k <= 0 {
        1
    } else {
        256 * pow256(k - 1)
    }
}

/// The value of a byte string below the position where all bytes are zero
/// is the value of its prefix.
proof fn lemma_le_val_high_zero(s: Seq<u8>, k: int)
    requires
        0 <= k <= s.len(),
        forall|i: int| k <= i < s.len() ==> s[i] == 0,
    ensures
        le_val(s) == le_val(s.take(k)),
{
    lemma_le_val_split(s, k);
    crate::field::lemma_le_val_zero(s.skip(k));
}

/// The value held by a field element if it fits in a machine word.
fn fe_small_value(fe: &FieldElem) -> (r: Option<u64>)
    ensures
        r is Some <==> fe@ <= u64::MAX as nat,
        r matches Some(v) ==> v as nat == fe@,
{
    let mut high_zero = true;
    let mut i: usize = 8;
    while i < 32
        invariant
            8 <= i <= 32,
            high_zero <==> (forall|j: int| 8 <= j < i ==> fe.bytes@[j] == 0),
        decreases 32 - i,
    {
        if fe.bytes[i] != 0 {
            high_zero = false;
        }
        i += 1;
    }
    if !high_zero {
        proof {
            let k: int = choose|j: int| 8 <= j < 32 && fe.bytes@[j] != 0;
            lemma_le_val_split(fe.bytes@, k + 1);
            lemma_le_val_split(fe.bytes@.take(k + 1), k);
            assert(fe.bytes@.take(k + 1).skip(k) =~= seq![fe.bytes@[k]]);
            assert(seq![fe.bytes@[k]].drop_first() =~= Seq::<u8>::empty());
            assert(le_val(Seq::<u8>::empty()) == 0);
            assert(le_val(seq![fe.bytes@[k]]) == fe.bytes@[k] as nat);
            assert(pow256(8) == 0x10000000000000000) by {
                reveal_with_fuel(pow256, 9);
            };
            lemma_pow256_pos(8);
            assert(pow256(k) >= pow256(8)) by {
                lemma_pow256_increases(8, k);
            }
            assert(pow256(k) * le_val(fe.bytes@.take(k + 1).skip(k)) >= pow256(8) * 1)
                by (nonlinear_arith)
                requires
                    pow256(k) >= pow256(8),
                    le_val(fe.bytes@.take(k + 1).skip(k)) >= 1,
                    pow256(8) > 0,
            ;
            assert(fe@ > u64::MAX as nat);
        }
        return None;
    }
    let mut acc: u64 = 0;
    let mut i: usize = 8;
    while i > 0
        invariant
            i <= 8,
            acc as nat == le_val(fe.bytes@.subrange(i as int, 8)),
            (acc as nat) < pow256(8 - i),
        decreases i,
    {
        i -= 1;
        proof {
            assert(fe.bytes@.subrange(i as int, 8).drop_first() =~= fe.bytes@.subrange(
                i as int + 1,
                8,
            ));
            assert(pow256(8 - i) == 256 * pow256(7 - i));
            assert((fe.bytes@[i as int] as nat) + 256 * (acc as nat) < 256 * pow256(7 - i))
                by (nonlinear_arith)
                requires
                    (fe.bytes@[i as int] as nat) < 256,
                    (acc as nat) < pow256(7 - i),
            ;
            lemma_pow256_increases(8 - i, 8);
            assert(pow256(8) == 0x10000000000000000) by { reveal_with_fuel(pow256, 9); };
        }
        acc = (fe.bytes[i] as u64) + 256 * acc;
    }
    proof {
        lemma_le_val_high_zero(fe.bytes@, 8);
        assert(fe.bytes@.subrange(0, 8) =~= fe.bytes@.take(8));
        assert(pow256(8) == 0x10000000000000000) by { reveal_with_fuel(pow256, 9); };
    }
    Some(acc)
}

/// Powers of 256 are positive.
proof fn lemma_pow256_pos(k: int)
    ensures
        pow256(k) > 0,
    decreases k,
{
    if k > 0 {
        lemma_pow256_pos(k - 1);
        assert(256 * pow256(k - 1) > 0) by (nonlinear_arith)
            requires
                pow256(k - 1) > 0,
        ;
    }
}

/// Powers of 256 do not decrease with the exponent.
proof fn lemma_pow256_increases(a: int, b: int)
    requires
        a <= b,
    ensures
        pow256(a) <= pow256(b),
    decreases b - a,
{
    if a < b {
        lemma_pow256_increases(a, b - 1);
        if b > 0 {
            lemma_pow256_pos(b - 1);
            assert(256 * pow256(b - 1) >= pow256(b - 1)) by (nonlinear_arith)
                requires
                    pow256(b - 1) > 0,
            ;
        }
    }
}

/// Encoding a commitment string is deterministic: the element drawn
/// depends on the string's bytes alone, so equal strings encode to equal
/// field elements.
pub proof fn lemma_encode_hex_deterministic(s1: Seq<u8>, s2: Seq<u8>)
    requires
        s1 == s2,
    ensures
        hex_field_spec(s1) == hex_field_spec(s2),
{
}

/// Round trip of the fixed-point embedding: a signed count of `1e-6`
/// units within the representable range decodes back to itself exactly.
pub proof fn lemma_fixed_point_round_trip(micro: i64, inv: nat)
    requires
        micro > i64::MIN,
        inv < field_modulus(),
        f_mul(inv, SCALE as nat) == 1,
    ensures
        decode_fixed_spec(f_mul(signed_residue(micro as int), inv)) == Some(micro),
{
    let m = field_modulus() as int;
    let s = signed_residue(micro as int) as int;
    let e = f_mul(s as nat, inv) as int;
    let y = f_mul(e as nat, SCALE as nat) as int;
    assert(e == (s * inv) % m);
    lemma_mul_mod_noop_left(s * (inv as int), SCALE as int, m);
    assert((s * inv) * SCALE == s * (inv * SCALE)) by (nonlinear_arith);
    lemma_mul_mod_noop_right(s, (inv * SCALE) as int, m);
    assert(y == (s * ((inv * SCALE) % m)) % m);
    assert(y == s % m);
    lemma_small_mod(s as nat, m as nat);
    assert(y == s);
    if micro >= 0 {
        assert(y == micro);
    } else {
        assert(y == m + micro);
        assert(y > i64::MAX as int && y >= m - i64::MAX);
    }
}

} // verus!
