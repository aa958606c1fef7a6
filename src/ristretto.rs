//! The prime-order Ristretto group and its scalar field, as the protocol sees
//! them: points by their canonical 32-byte encodings, scalars by their
//! 32-byte little-endian encodings.

use vstd::prelude::*;
use vstd::arithmetic::div_mod::{lemma_mul_mod_noop_right, lemma_small_mod};
use curve25519_dalek::constants::RISTRETTO_BASEPOINT_TABLE;
use curve25519_dalek::ristretto::{CompressedRistretto, RistrettoPoint};
use curve25519_dalek::scalar::Scalar;
use rand_core::{OsRng, RngCore};
use sha2::Sha512;

verus! {

/// The order of the Ristretto group.
pub open spec fn group_order() -> nat {
    0x40000000000000000000000000000000 * 0x40000000000000000000000000000000
        + 0x14def9dea2f79cd65812631a5cf5d3ed
}

/// The integer that a little-endian byte string encodes.
pub open spec fn le_value(b: Seq<u8>) -> nat
    decreases b.len(),
{
    if b.len() == 0 {
        0
    } else {
        b[0] as nat + 256 * le_value(b.drop_first())
    }
}

/// The scalar that 32 bytes stand for, reduced modulo the group order.
pub open spec fn scalar_of(b: [u8; 32]) -> nat {
    le_value(b@) % group_order()
}

/// Whether 32 bytes are the canonical encoding of a scalar.
pub open spec fn is_canonical_scalar(b: [u8; 32]) -> bool {
    le_value(b@) < group_order()
}

/// The wire form of a Ristretto point, `CompressedRistretto(pub [u8; 32])`,
/// declared with its one public field.
#[verifier::external_type_specification]
pub struct ExCompressedRistretto(CompressedRistretto);

/// Whether bytes are the canonical encoding of a Ristretto point.
pub uninterp spec fn ristretto_decodes(p: Seq<u8>) -> bool;

/// The encoding of the point `p` multiplied by the scalar `s`.
pub uninterp spec fn ristretto_mul(p: Seq<u8>, s: nat) -> Seq<u8>;

/// The encoding of the basepoint multiplied by the scalar `s`.
pub uninterp spec fn ristretto_base_mul(s: nat) -> Seq<u8>;

/// The encoding of the sum of the points `a` and `b`.
pub uninterp spec fn ristretto_add(a: Seq<u8>, b: Seq<u8>) -> Seq<u8>;

/// The encoding of the point that `input` hashes to under SHA-512.
pub uninterp spec fn ristretto_hash(input: Seq<u8>) -> Seq<u8>;

/// The encoding of the scalar that `input` hashes to under SHA-512.
pub uninterp spec fn scalar_hash(input: Seq<u8>) -> Seq<u8>;

/// Relies on `Scalar::random` over `OsRng`: a uniform scalar, reduced by
/// `from_bytes_mod_order_wide`, so that its encoding is canonical.
#[verifier::external_body]
pub(crate) fn random_scalar() -> (r: [u8; 32])
    ensures
        is_canonical_scalar(r),
{
    Scalar::random(&mut OsRng).to_bytes()
}

/// Relies on `OsRng::fill_bytes` for 32 random bytes.
#[verifier::external_body]
pub(crate) fn random_bytes() -> (r: [u8; 32]) {
    let mut b = [0u8; 32];
    OsRng.fill_bytes(&mut b);
    b
}

/// Relies on `Scalar::from_bytes_mod_order` and `Scalar * Scalar`: the
/// product modulo the group order.
#[verifier::external_body]
pub(crate) fn scalar_mul(a: &[u8; 32], b: &[u8; 32]) -> (r: [u8; 32])
    ensures
        le_value(r@) == (scalar_of(*a) * scalar_of(*b)) % group_order(),
{
    (Scalar::from_bytes_mod_order(*a) * Scalar::from_bytes_mod_order(*b)).to_bytes()
}

/// Relies on `Scalar::from_bytes_mod_order` and `Scalar + Scalar`: the sum
/// modulo the group order.
#[verifier::external_body]
pub(crate) fn scalar_add(a: &[u8; 32], b: &[u8; 32]) -> (r: [u8; 32])
    ensures
        le_value(r@) == (scalar_of(*a) + scalar_of(*b)) % group_order(),
{
    (Scalar::from_bytes_mod_order(*a) + Scalar::from_bytes_mod_order(*b)).to_bytes()
}

/// Relies on `Scalar::invert`, documented for nonzero scalars: the
/// multiplicative inverse modulo the group order.
#[verifier::external_body]
pub(crate) fn scalar_invert(s: &[u8; 32]) -> (r: [u8; 32])
    requires
        scalar_of(*s) != 0,
    ensures
        is_canonical_scalar(r),
        (le_value(r@) * scalar_of(*s)) % group_order() == 1,
{
    Scalar::from_bytes_mod_order(*s).invert().to_bytes()
}

/// Relies on `Scalar::hash_from_bytes::<Sha512>`; its result is reduced.
#[verifier::external_body]
pub(crate) fn hash_to_scalar(input: &Vec<u8>) -> (r: [u8; 32])
    ensures
        r@ == scalar_hash(input@),
        is_canonical_scalar(r),
{
    Scalar::hash_from_bytes::<Sha512>(input.as_slice()).to_bytes()
}

/// Relies on `RistrettoPoint::hash_from_bytes::<Sha512>` and `compress`,
/// whose output is a canonical encoding.
#[verifier::external_body]
pub(crate) fn hash_to_point(input: &[u8; 32]) -> (r: CompressedRistretto)
    ensures
        r.0@ == ristretto_hash(input@),
        ristretto_decodes(r.0@),
{
    RistrettoPoint::hash_from_bytes::<Sha512>(input).compress()
}

/// Relies on `Scalar * RISTRETTO_BASEPOINT_TABLE` and `compress`.
#[verifier::external_body]
pub(crate) fn base_mul(s: &[u8; 32]) -> (r: CompressedRistretto)
    ensures
        r.0@ == ristretto_base_mul(scalar_of(*s)),
        ristretto_decodes(r.0@),
{
    (&Scalar::from_bytes_mod_order(*s) * &RISTRETTO_BASEPOINT_TABLE).compress()
}

/// Relies on `CompressedRistretto::decompress`, which fails exactly on a
/// non-canonical encoding, then `RistrettoPoint * Scalar` and `compress`.
#[verifier::external_body]
pub(crate) fn point_mul(p: &CompressedRistretto, s: &[u8; 32]) -> (r: Option<CompressedRistretto>)
    ensures
        r.is_some() == ristretto_decodes(p.0@),
        r matches Some(q) ==> q.0@ == ristretto_mul(p.0@, scalar_of(*s)) && ristretto_decodes(q.0@),
{
    match p.decompress() {
        Some(q) => Some((q * Scalar::from_bytes_mod_order(*s)).compress()),
        None => None,
    }
}

/// Relies on `CompressedRistretto::decompress`, then `RistrettoPoint +
/// RistrettoPoint` and `compress`.
#[verifier::external_body]
pub(crate) fn point_add(a: &CompressedRistretto, b: &CompressedRistretto) -> (r: Option<CompressedRistretto>)
    ensures
        r.is_some() == (ristretto_decodes(a.0@) && ristretto_decodes(b.0@)),
        r matches Some(q) ==> q.0@ == ristretto_add(a.0@, b.0@) && ristretto_decodes(q.0@),
{
    match (a.decompress(), b.decompress()) {
        (Some(x), Some(y)) => Some((x + y).compress()),
        _ => None,
    }
}

/// Relies on `Scalar::from(u32)` and `to_bytes`: the little-endian encoding
/// of the integer.
#[verifier::external_body]
pub(crate) fn scalar_from_u32(i: u32) -> (r: [u8; 32])
    ensures
        le_value(r@) == i,
{
    Scalar::from(i).to_bytes()
}

/// Whether `v` is a reduced inverse of `s` modulo the group order.
pub open spec fn is_inverse(v: nat, s: nat) -> bool {
    v < group_order() && (v * s) % group_order() == 1
}

/// The inverse of `s` modulo the group order.
pub open spec fn scalar_inverse(s: nat) -> nat {
    choose|v: nat| #[trigger] is_inverse(v, s)
}

/// An inverse modulo the group order, where there is one, is unique.
pub proof fn lemma_inverse_unique(v: nat, s: nat)
    requires
        v < group_order(),
        (v * s) % group_order() == 1,
    ensures
        scalar_inverse(s) == v,
{
    let m = group_order() as int;
    let w = scalar_inverse(s);
    assert(is_inverse(v, s));
    assert(is_inverse(w, s));
    lemma_mul_mod_noop_right(v as int, (w * s) as int, m);
    lemma_mul_mod_noop_right(w as int, (v * s) as int, m);
    assert((v as int) * ((w * s) as int) == (w as int) * ((v * s) as int)) by (nonlinear_arith);
    lemma_small_mod(v, group_order());
    lemma_small_mod(w, group_order());
}

/// A little-endian encoding is zero exactly when every byte is.
pub proof fn lemma_le_value_zero(b: Seq<u8>)
    ensures
        (le_value(b) == 0) == (forall|i: int| 0 <= i < b.len() ==> b[i] == 0),
    decreases b.len(),
{
    if b.len() > 0 {
        let rest = b.drop_first();
        lemma_le_value_zero(rest);
        if forall|i: int| 0 <= i < b.len() ==> b[i] == 0 {
            assert forall|i: int| 0 <= i < rest.len() implies rest[i] == 0 by {
                assert(rest[i] == b[i + 1]);
            }
        }
        if le_value(b) == 0 {
            assert forall|i: int| 0 <= i < b.len() implies b[i] == 0 by {
                if i > 0 {
                    assert(b[i] == rest[i - 1]);
                }
            }
        }
    }
}

/// Two encodings of the same length that stand for the same integer are
/// the same bytes.
pub proof fn lemma_le_value_injective(a: Seq<u8>, b: Seq<u8>)
    requires
        a.len() == b.len(),
        le_value(a) == le_value(b),
    ensures
        a == b,
    decreases a.len(),
{
    if a.len() > 0 {
        let (ra, rb) = (a.drop_first(), b.drop_first());
        assert(a[0] as nat == le_value(a) % 256 && b[0] as nat == le_value(b) % 256) by {
            vstd::arithmetic::div_mod::lemma_fundamental_div_mod_converse(
                le_value(a) as int, 256, le_value(ra) as int, a[0] as int);
            vstd::arithmetic::div_mod::lemma_fundamental_div_mod_converse(
                le_value(b) as int, 256, le_value(rb) as int, b[0] as int);
        }
        assert(le_value(ra) == le_value(rb));
        lemma_le_value_injective(ra, rb);
        assert(a =~= b) by {
            assert forall|i: int| 0 <= i < a.len() implies a[i] == b[i] by {
                if i > 0 {
                    assert(a[i] == ra[i - 1] && b[i] == rb[i - 1]);
                }
            }
        }
    }
}

/// Whether 32 bytes encode the integer zero.
pub fn is_zero_scalar(s: &[u8; 32]) -> (r: bool)
    ensures
        r == (le_value(s@) == 0),
{
    proof {
        lemma_le_value_zero(s@);
    }
    let mut i: usize = 0;
    while i < 32
        invariant
            s@.len() == 32,
            0 <= i <= 32,
            forall|j: int| 0 <= j < i ==> s@[j] == 0,
        decreases 32 - i,
    {
        if s[i] != 0 {
            proof {
                lemma_le_value_zero(s@);
                assert(s@[i as int] != 0);
            }
            return false;
        }
        i = i + 1;
    }
    true
}

/// A fresh random blinding scalar. A draw of zero, which has negligible
/// probability, is replaced by one, so that every mask can be inverted.
pub fn fresh_mask() -> (r: [u8; 32])
    ensures
        is_canonical_scalar(r),
        scalar_of(r) != 0,
{
    let m = random_scalar();
    if is_zero_scalar(&m) {
        let one: [u8; 32] = [
            1, 0, 0, 0, 0, 0, 0, 0, 0, 0, 0, 0, 0, 0, 0, 0,
            0, 0, 0, 0, 0, 0, 0, 0, 0, 0, 0, 0, 0, 0, 0, 0,
        ];
        proof {
            let rest = one@.drop_first();
            lemma_le_value_zero(rest);
            assert(le_value(rest) == 0);
            assert(le_value(one@) == 1);
            lemma_small_mod(1, group_order());
        }
        one
    } else {
        proof {
            lemma_small_mod(le_value(m@), group_order());
        }
        m
    }
}

} // verus!
