//! The BLS12-381 groups G1 and G2, their pairing into the target group, and
//! the scalar field Fr, as the mergeable cards see them: points by their
//! compressed encodings, scalars by their 32-byte big-endian encodings.
//! A compressed encoding is one per point, so points are compared by their
//! encodings.

use vstd::prelude::*;
use vstd::arithmetic::div_mod::{lemma_mul_mod_noop_right, lemma_small_mod};
use vstd::arithmetic::power::pow;
use ff_zeroize::Field;
use pairing_plus::bls12_381::{Bls12, Fq12, Fr, G1, G2};
use pairing_plus::hash_to_curve::HashToCurve;
use pairing_plus::hash_to_field::{hash_to_field, ExpandMsgXmd};
use pairing_plus::serdes::SerDes;
use pairing_plus::{CurveProjective, Engine};
use rand_core::OsRng;
use sha2::Sha256;

verus! {

/// The order of G1, G2 and the target group: the modulus of Fr.
pub open spec fn fr_modulus() -> nat {
    0x73eda753299d7d483339d80809a1d805 * (0x10000000000000000 * 0x10000000000000000)
        + 0x53bda402fffe5bfeffffffff00000001
}

/// The integer that a big-endian byte string encodes.
pub open spec fn be_value(b: Seq<u8>) -> nat
    decreases b.len(),
{
    if b.len() == 0 {
        0
    } else {
        be_value(b.drop_last()) * 256 + b.last() as nat
    }
}

/// Whether bytes are the encoding of an element of Fr.
pub open spec fn is_fr(b: Seq<u8>) -> bool {
    b.len() == 32 && be_value(b) < fr_modulus()
}

/// Whether `v` is an inverse of `s` in Fr.
pub open spec fn is_fr_inverse(v: nat, s: nat) -> bool {
    v < fr_modulus() && (v * s) % fr_modulus() == 1
}

/// The inverse of `s` in Fr.
pub open spec fn fr_inverse_of(s: nat) -> nat {
    choose|v: nat| #[trigger] is_fr_inverse(v, s)
}

/// Whether bytes begin with the compressed encoding of a point of G1.
pub uninterp spec fn g1_decodes(p: Seq<u8>) -> bool;

/// Whether bytes begin with the compressed encoding of a point of G2.
pub uninterp spec fn g2_decodes(p: Seq<u8>) -> bool;

/// Whether bytes begin with the encoding of an element of the target group.
pub uninterp spec fn gt_decodes(p: Seq<u8>) -> bool;

/// The compressed encoding of the G1 point `p` multiplied by `s`.
pub uninterp spec fn g1_mul(p: Seq<u8>, s: nat) -> Seq<u8>;

/// The compressed encoding of the G2 point `p` multiplied by `s`.
pub uninterp spec fn g2_mul(p: Seq<u8>, s: nat) -> Seq<u8>;

/// The compressed encoding of the generator of G1 multiplied by `s`.
pub uninterp spec fn g1_base_mul(s: nat) -> Seq<u8>;

/// The compressed encoding of the generator of G2 multiplied by `s`.
pub uninterp spec fn g2_base_mul(s: nat) -> Seq<u8>;

/// The compressed encoding of the sum of two G1 points.
pub uninterp spec fn g1_add(a: Seq<u8>, b: Seq<u8>) -> Seq<u8>;

/// The compressed encoding of the sum of two G2 points.
pub uninterp spec fn g2_add(a: Seq<u8>, b: Seq<u8>) -> Seq<u8>;

/// The compressed encoding of the G1 point that `msg` hashes to under the
/// domain tag `dst`.
pub uninterp spec fn g1_hash(msg: Seq<u8>, dst: Seq<u8>) -> Seq<u8>;

/// The compressed encoding of the G2 point that `msg` hashes to under the
/// domain tag `dst`.
pub uninterp spec fn g2_hash(msg: Seq<u8>, dst: Seq<u8>) -> Seq<u8>;

/// The encoding of the element of Fr that `msg` hashes to under the domain
/// tag `dst`.
pub uninterp spec fn fr_hash(msg: Seq<u8>, dst: Seq<u8>) -> Seq<u8>;

/// The encoding of the pairing of a G1 point and a G2 point.
pub uninterp spec fn gt_pairing(a: Seq<u8>, b: Seq<u8>) -> Seq<u8>;

/// The encoding of the target-group element that bytes decode to.
pub uninterp spec fn gt_reencode(p: Seq<u8>) -> Seq<u8>;

/// Relies on `Fr::random` over `OsRng` and `SerDes::serialize` of `Fr`,
/// which writes the reduced value in 32 big-endian bytes.
#[verifier::external_body]
pub(crate) fn random_fr() -> (r: Vec<u8>)
    ensures
        is_fr(r@),
{
    let mut out = Vec::new();
    Fr::random(&mut OsRng).serialize(&mut out, true).unwrap();
    out
}

/// Relies on `SerDes::deserialize` of `Fr`, which reads 32 big-endian
/// bytes and refuses a value that is not reduced.
#[verifier::external_body]
pub(crate) fn fr_decode(b: &Vec<u8>) -> (r: Option<Vec<u8>>)
    ensures
        r.is_some() == (b@.len() >= 32 && be_value(b@.subrange(0, 32)) < fr_modulus()),
        r matches Some(v) ==> v@ == b@.subrange(0, 32),
{
    let f = Fr::deserialize(&mut &b[..], true).ok()?;
    let mut out = Vec::new();
    f.serialize(&mut out, true).unwrap();
    Some(out)
}

/// Relies on `Field::mul_assign` of `Fr`: the product modulo the order.
#[verifier::external_body]
pub(crate) fn fr_mul(a: &Vec<u8>, b: &Vec<u8>) -> (r: Vec<u8>)
    requires
        is_fr(a@),
        is_fr(b@),
    ensures
        is_fr(r@),
        be_value(r@) == (be_value(a@) * be_value(b@)) % fr_modulus(),
{
    let mut x = Fr::deserialize(&mut &a[..], true).unwrap();
    x.mul_assign(&Fr::deserialize(&mut &b[..], true).unwrap());
    let mut out = Vec::new();
    x.serialize(&mut out, true).unwrap();
    out
}

/// Relies on `Field::add_assign` of `Fr`: the sum modulo the order.
#[verifier::external_body]
pub(crate) fn fr_add(a: &Vec<u8>, b: &Vec<u8>) -> (r: Vec<u8>)
    requires
        is_fr(a@),
        is_fr(b@),
    ensures
        is_fr(r@),
        be_value(r@) == (be_value(a@) + be_value(b@)) % fr_modulus(),
{
    let mut x = Fr::deserialize(&mut &a[..], true).unwrap();
    x.add_assign(&Fr::deserialize(&mut &b[..], true).unwrap());
    let mut out = Vec::new();
    x.serialize(&mut out, true).unwrap();
    out
}

/// Relies on `Field::inverse` of `Fr`, which is `None` only for zero.
#[verifier::external_body]
pub(crate) fn fr_inverse(s: &Vec<u8>) -> (r: Vec<u8>)
    requires
        is_fr(s@),
        be_value(s@) != 0,
    ensures
        is_fr(r@),
        (be_value(r@) * be_value(s@)) % fr_modulus() == 1,
{
    let x = Fr::deserialize(&mut &s[..], true).unwrap().inverse().unwrap();
    let mut out = Vec::new();
    x.serialize(&mut out, true).unwrap();
    out
}

/// Relies on `Field::pow` of `Fr` with one 64-bit limb.
#[verifier::external_body]
pub(crate) fn fr_pow(s: &Vec<u8>, e: u64) -> (r: Vec<u8>)
    requires
        is_fr(s@),
    ensures
        is_fr(r@),
        be_value(r@) == pow(be_value(s@) as int, e as nat) % (fr_modulus() as int),
{
    let x = Fr::deserialize(&mut &s[..], true).unwrap().pow([e]);
    let mut out = Vec::new();
    x.serialize(&mut out, true).unwrap();
    out
}

/// Relies on `hash_to_field::<Fr, ExpandMsgXmd<Sha256>>` for one element.
#[verifier::external_body]
pub(crate) fn hash_to_fr(msg: &Vec<u8>, dst: &[u8; 4]) -> (r: Vec<u8>)
    ensures
        r@ == fr_hash(msg@, dst@),
        is_fr(r@),
{
    let x = hash_to_field::<Fr, ExpandMsgXmd<Sha256>>(msg.as_slice(), dst, 1)[0];
    let mut out = Vec::new();
    x.serialize(&mut out, true).unwrap();
    out
}

/// Relies on `HashToCurve::<ExpandMsgXmd<Sha256>>::hash_to_curve` of G1 and
/// its compressed `serialize`.
#[verifier::external_body]
pub(crate) fn hash_to_g1(msg: &[u8; 32], dst: &[u8; 4]) -> (r: Vec<u8>)
    ensures
        r@ == g1_hash(msg@, dst@),
        g1_decodes(r@),
{
    let p = <G1 as HashToCurve<ExpandMsgXmd<Sha256>>>::hash_to_curve(msg, dst);
    let mut out = Vec::new();
    p.serialize(&mut out, true).unwrap();
    out
}

/// Relies on `HashToCurve::<ExpandMsgXmd<Sha256>>::hash_to_curve` of G2 and
/// its compressed `serialize`.
#[verifier::external_body]
pub(crate) fn hash_to_g2(msg: &[u8; 32], dst: &[u8; 4]) -> (r: Vec<u8>)
    ensures
        r@ == g2_hash(msg@, dst@),
        g2_decodes(r@),
{
    let p = <G2 as HashToCurve<ExpandMsgXmd<Sha256>>>::hash_to_curve(msg, dst);
    let mut out = Vec::new();
    p.serialize(&mut out, true).unwrap();
    out
}

/// Relies on `G1::one`, `mul_assign` and the compressed `serialize`.
#[verifier::external_body]
pub(crate) fn g1_base_mul_exec(s: &Vec<u8>) -> (r: Vec<u8>)
    requires
        is_fr(s@),
    ensures
        r@ == g1_base_mul(be_value(s@)),
        g1_decodes(r@),
{
    let mut p = G1::one();
    p.mul_assign(Fr::deserialize(&mut &s[..], true).unwrap());
    let mut out = Vec::new();
    p.serialize(&mut out, true).unwrap();
    out
}

/// Relies on `G2::one`, `mul_assign` and the compressed `serialize`.
#[verifier::external_body]
pub(crate) fn g2_base_mul_exec(s: &Vec<u8>) -> (r: Vec<u8>)
    requires
        is_fr(s@),
    ensures
        r@ == g2_base_mul(be_value(s@)),
        g2_decodes(r@),
{
    let mut p = G2::one();
    p.mul_assign(Fr::deserialize(&mut &s[..], true).unwrap());
    let mut out = Vec::new();
    p.serialize(&mut out, true).unwrap();
    out
}

/// Relies on the compressed `deserialize` of G1, `mul_assign` and
/// `serialize`.
#[verifier::external_body]
pub(crate) fn g1_mul_exec(p: &Vec<u8>, s: &Vec<u8>) -> (r: Option<Vec<u8>>)
    requires
        is_fr(s@),
    ensures
        r.is_some() == g1_decodes(p@),
        r matches Some(q) ==> q@ == g1_mul(p@, be_value(s@)) && g1_decodes(q@),
{
    let mut q = G1::deserialize(&mut &p[..], true).ok()?;
    q.mul_assign(Fr::deserialize(&mut &s[..], true).unwrap());
    let mut out = Vec::new();
    q.serialize(&mut out, true).unwrap();
    Some(out)
}

/// Relies on the compressed `deserialize` of G2, `mul_assign` and
/// `serialize`.
#[verifier::external_body]
pub(crate) fn g2_mul_exec(p: &Vec<u8>, s: &Vec<u8>) -> (r: Option<Vec<u8>>)
    requires
        is_fr(s@),
    ensures
        r.is_some() == g2_decodes(p@),
        r matches Some(q) ==> q@ == g2_mul(p@, be_value(s@)) && g2_decodes(q@),
{
    let mut q = G2::deserialize(&mut &p[..], true).ok()?;
    q.mul_assign(Fr::deserialize(&mut &s[..], true).unwrap());
    let mut out = Vec::new();
    q.serialize(&mut out, true).unwrap();
    Some(out)
}

/// Relies on the compressed `deserialize` of G1, `add_assign` and
/// `serialize`.
#[verifier::external_body]
pub(crate) fn g1_add_exec(a: &Vec<u8>, b: &Vec<u8>) -> (r: Option<Vec<u8>>)
    ensures
        r.is_some() == (g1_decodes(a@) && g1_decodes(b@)),
        r matches Some(q) ==> q@ == g1_add(a@, b@) && g1_decodes(q@),
{
    let mut x = G1::deserialize(&mut &a[..], true).ok()?;
    x.add_assign(&G1::deserialize(&mut &b[..], true).ok()?);
    let mut out = Vec::new();
    x.serialize(&mut out, true).unwrap();
    Some(out)
}

/// Relies on the compressed `deserialize` of G2, `add_assign` and
/// `serialize`.
#[verifier::external_body]
pub(crate) fn g2_add_exec(a: &Vec<u8>, b: &Vec<u8>) -> (r: Option<Vec<u8>>)
    ensures
        r.is_some() == (g2_decodes(a@) && g2_decodes(b@)),
        r matches Some(q) ==> q@ == g2_add(a@, b@) && g2_decodes(q@),
{
    let mut x = G2::deserialize(&mut &a[..], true).ok()?;
    x.add_assign(&G2::deserialize(&mut &b[..], true).ok()?);
    let mut out = Vec::new();
    x.serialize(&mut out, true).unwrap();
    Some(out)
}

/// Relies on `Bls12::pairing` of a G1 and a G2 point, decoded by their
/// compressed `deserialize`, and on `serialize` of `Fq12`.
#[verifier::external_body]
pub(crate) fn pairing_exec(a: &Vec<u8>, b: &Vec<u8>) -> (r: Option<Vec<u8>>)
    ensures
        r.is_some() == (g1_decodes(a@) && g2_decodes(b@)),
        r matches Some(q) ==> q@ == gt_pairing(a@, b@),
{
    let x = G1::deserialize(&mut &a[..], true).ok()?;
    let y = G2::deserialize(&mut &b[..], true).ok()?;
    let mut out = Vec::new();
    Bls12::pairing(x, y).serialize(&mut out, true).unwrap();
    Some(out)
}

/// Relies on `deserialize` of `Fq12`, which refuses a coordinate that is not
/// reduced, and on its `serialize`.
#[verifier::external_body]
pub(crate) fn gt_normalize(b: &Vec<u8>) -> (r: Option<Vec<u8>>)
    ensures
        r.is_some() == gt_decodes(b@),
        r matches Some(q) ==> q@ == gt_reencode(b@),
{
    let x = Fq12::deserialize(&mut &b[..], true).ok()?;
    let mut out = Vec::new();
    x.serialize(&mut out, true).unwrap();
    Some(out)
}

/// A reduced inverse in Fr, where there is one, is unique.
pub proof fn lemma_fr_inverse_unique(v: nat, s: nat)
    requires
        is_fr_inverse(v, s),
    ensures
        fr_inverse_of(s) == v,
{
    let m = fr_modulus() as int;
    let w = fr_inverse_of(s);
    assert(is_fr_inverse(w, s));
    lemma_mul_mod_noop_right(v as int, (w * s) as int, m);
    lemma_mul_mod_noop_right(w as int, (v * s) as int, m);
    assert((v as int) * ((w * s) as int) == (w as int) * ((v * s) as int)) by (nonlinear_arith);
    lemma_small_mod(v, fr_modulus());
    lemma_small_mod(w, fr_modulus());
}

/// A big-endian encoding is zero exactly when every byte is.
pub proof fn lemma_be_value_zero(b: Seq<u8>)
    ensures
        (be_value(b) == 0) == (forall|i: int| 0 <= i < b.len() ==> b[i] == 0),
    decreases b.len(),
{
    if b.len() > 0 {
        let front = b.drop_last();
        lemma_be_value_zero(front);
        if forall|i: int| 0 <= i < b.len() ==> b[i] == 0 {
            assert forall|i: int| 0 <= i < front.len() implies front[i] == 0 by {
                assert(front[i] == b[i]);
            }
            assert(b.last() == b[b.len() - 1]);
        }
        if be_value(b) == 0 {
            assert forall|i: int| 0 <= i < b.len() implies b[i] == 0 by {
                if i < b.len() - 1 {
                    assert(b[i] == front[i]);
                }
            }
        }
    }
}

/// A fresh random mask in Fr. A draw of zero, which has negligible
/// probability, is replaced by one, so that every mask can be inverted.
pub fn fresh_fr_mask() -> (r: Vec<u8>)
    ensures
        is_fr(r@),
        be_value(r@) != 0,
{
    let m = random_fr();
    let mut i: usize = 0;
    while i < m.len()
        invariant
            is_fr(m@),
            0 <= i <= m@.len(),
            forall|j: int| 0 <= j < i ==> m@[j] == 0,
        decreases m@.len() - i,
    {
        if m[i] != 0 {
            proof {
                lemma_be_value_zero(m@);
                assert(m@[i as int] != 0);
            }
            return m;
        }
        i = i + 1;
    }
    let mut one: Vec<u8> = Vec::new();
    let mut k: usize = 0;
    while k < 31
        invariant
            0 <= k <= 31,
            one@.len() == k,
            forall|j: int| 0 <= j < k ==> one@[j] == 0,
        decreases 31 - k,
    {
        one.push(0);
        k = k + 1;
    }
    proof {
        lemma_be_value_zero(one@);
    }
    let ghost front = one@;
    one.push(1);
    proof {
        assert(one@.drop_last() =~= front);
        assert(be_value(one@) == 1);
    }
    one
}

/// One of the two source groups of the pairing.
#[derive(Debug, Clone, Copy, PartialEq, Eq, Structural)]
pub enum Curve {
    G1,
    G2,
}

/// Whether bytes begin with the compressed encoding of a point of `c`.
pub open spec fn curve_decodes(c: Curve, p: Seq<u8>) -> bool {
    match c {
        Curve::G1 => g1_decodes(p),
        Curve::G2 => g2_decodes(p),
    }
}

/// The point `p` of `c` multiplied by `s`.
pub open spec fn curve_mul(c: Curve, p: Seq<u8>, s: nat) -> Seq<u8> {
    match c {
        Curve::G1 => g1_mul(p, s),
        Curve::G2 => g2_mul(p, s),
    }
}

/// The generator of `c` multiplied by `s`.
pub open spec fn curve_base_mul(c: Curve, s: nat) -> Seq<u8> {
    match c {
        Curve::G1 => g1_base_mul(s),
        Curve::G2 => g2_base_mul(s),
    }
}

/// The sum of two points of `c`.
pub open spec fn curve_add(c: Curve, a: Seq<u8>, b: Seq<u8>) -> Seq<u8> {
    match c {
        Curve::G1 => g1_add(a, b),
        Curve::G2 => g2_add(a, b),
    }
}

/// The point of `c` that `msg` hashes to under the tag `dst`.
pub open spec fn curve_hash(c: Curve, msg: Seq<u8>, dst: Seq<u8>) -> Seq<u8> {
    match c {
        Curve::G1 => g1_hash(msg, dst),
        Curve::G2 => g2_hash(msg, dst),
    }
}

/// The point `p` of `c` multiplied by `s`; `None` when `p` does not decode.
pub fn point_mul_on(c: Curve, p: &Vec<u8>, s: &Vec<u8>) -> (r: Option<Vec<u8>>)
    requires
        is_fr(s@),
    ensures
        r.is_some() == curve_decodes(c, p@),
        r matches Some(q) ==> q@ == curve_mul(c, p@, be_value(s@)) && curve_decodes(c, q@),
{
    match c {
        Curve::G1 => g1_mul_exec(p, s),
        Curve::G2 => g2_mul_exec(p, s),
    }
}

/// The generator of `c` multiplied by `s`.
pub fn base_mul_on(c: Curve, s: &Vec<u8>) -> (r: Vec<u8>)
    requires
        is_fr(s@),
    ensures
        r@ == curve_base_mul(c, be_value(s@)),
        curve_decodes(c, r@),
{
    match c {
        Curve::G1 => g1_base_mul_exec(s),
        Curve::G2 => g2_base_mul_exec(s),
    }
}

/// The sum of two points of `c`; `None` when either does not decode.
pub fn point_add_on(c: Curve, a: &Vec<u8>, b: &Vec<u8>) -> (r: Option<Vec<u8>>)
    ensures
        r.is_some() == (curve_decodes(c, a@) && curve_decodes(c, b@)),
        r matches Some(q) ==> q@ == curve_add(c, a@, b@) && curve_decodes(c, q@),
{
    match c {
        Curve::G1 => g1_add_exec(a, b),
        Curve::G2 => g2_add_exec(a, b),
    }
}

/// The point of `c` that `msg` hashes to under the tag `dst`.
pub fn hash_to_curve_on(c: Curve, msg: &[u8; 32], dst: &[u8; 4]) -> (r: Vec<u8>)
    ensures
        r@ == curve_hash(c, msg@, dst@),
        curve_decodes(c, r@),
{
    match c {
        Curve::G1 => hash_to_g1(msg, dst),
        Curve::G2 => hash_to_g2(msg, dst),
    }
}

} // verus!
