//! The mergeable variant of the punch card: each card has one half in G1
//! and one in G2, punched in lockstep, and two cards are merged at
//! redemption through the pairing.

use vstd::prelude::*;
use vstd::arithmetic::div_mod::lemma_small_mod;
use vstd::arithmetic::power::pow;
use crate::bls::{
    base_mul_on, be_value, curve_add, curve_base_mul, curve_decodes, curve_hash, curve_mul,
    fr_add, fr_decode, fr_hash, fr_inverse, fr_inverse_of, fr_modulus, fr_mul, fr_pow,
    fresh_fr_mask, g1_hash, g1_mul, g2_hash, gt_decodes, gt_pairing, gt_reencode, gt_normalize,
    hash_to_curve_on, hash_to_fr, is_fr, lemma_fr_inverse_unique, pairing_exec,
    point_add_on, point_mul_on, random_fr, Curve,
};
use crate::bytes::{append_bytes, bytes_equal};
use crate::error::PunchError;
use crate::ledger::Ledger;
use crate::ristretto::{le_value, random_bytes, scalar_from_u32};

verus! {

/// A proof, on one of the two groups, that the server raised a card half
/// to its secret: commitments `v_t = g^beta`, `w_t = card^beta` and the
/// response `beta_z = beta + secret * challenge`, all encoded.
pub struct PairProof {
    pub v_t: Vec<u8>,
    pub w_t: Vec<u8>,
    pub beta_z: Vec<u8>,
}

/// The tag under which a card's secret is hashed into `c`.
pub open spec fn card_tag(c: Curve) -> Seq<u8> {
    match c {
        Curve::G1 => seq![0u8, 0u8, 0u8, 0u8],
        Curve::G2 => seq![1u8, 0u8, 0u8, 0u8],
    }
}

/// The tag under which the challenge of a punch on `c` is hashed.
pub open spec fn proof_tag(c: Curve) -> Seq<u8> {
    match c {
        Curve::G1 => seq![3u8, 0u8, 0u8, 0u8],
        Curve::G2 => seq![4u8, 0u8, 0u8, 0u8],
    }
}

fn card_tag_of(c: Curve) -> (r: [u8; 4])
    ensures
        r@ == card_tag(c),
{
    let r: [u8; 4] = match c {
        Curve::G1 => [0, 0, 0, 0],
        Curve::G2 => [1, 0, 0, 0],
    };
    assert(r@ =~= card_tag(c));
    r
}

fn proof_tag_of(c: Curve) -> (r: [u8; 4])
    ensures
        r@ == proof_tag(c),
{
    let r: [u8; 4] = match c {
        Curve::G1 => [3, 0, 0, 0],
        Curve::G2 => [4, 0, 0, 0],
    };
    assert(r@ =~= proof_tag(c));
    r
}

/// The challenge of a proof on `c`.
pub open spec fn pair_challenge(c: Curve, y: Seq<u8>, before: Seq<u8>, after: Seq<u8>, v: Seq<u8>, w: Seq<u8>) -> nat {
    be_value(fr_hash(y + before + after + v + w, proof_tag(c)))
}

/// The response of a proof, as the scalar its first 32 bytes encode.
pub open spec fn response_of(proof: PairProof) -> nat {
    be_value(proof.beta_z@.subrange(0, 32))
}

/// Whether everything that checking a proof on `c` decodes is a point of
/// `c` or an element of Fr.
pub open spec fn pair_proof_decodes(c: Curve, y: Seq<u8>, after: Seq<u8>, proof: PairProof) -> bool {
    &&& curve_decodes(c, y)
    &&& curve_decodes(c, proof.v_t@)
    &&& curve_decodes(c, proof.w_t@)
    &&& curve_decodes(c, after)
    &&& proof.beta_z@.len() >= 32
    &&& response_of(proof) < fr_modulus()
}

/// The two equations that an accepted proof on `c` meets:
/// `g^z == v_t * y^c` and `before^z == w_t * after^c`.
pub open spec fn pair_proof_accepts(c: Curve, y: Seq<u8>, before: Seq<u8>, after: Seq<u8>, proof: PairProof) -> bool {
    let ch = pair_challenge(c, y, before, after, proof.v_t@, proof.w_t@);
    let z = response_of(proof);
    &&& curve_base_mul(c, z) == curve_add(c, proof.v_t@, curve_mul(c, y, ch))
    &&& curve_mul(c, before, z) == curve_add(c, proof.w_t@, curve_mul(c, after, ch))
}

/// Whether `proof` is the honest proof on `c`, with nonce `beta`, that
/// `after` is `before` raised to the secret `x` behind the public key `y`.
pub open spec fn is_honest_pair_proof(
    c: Curve,
    x: nat,
    y: Seq<u8>,
    before: Seq<u8>,
    after: Seq<u8>,
    proof: PairProof,
    beta: nat,
) -> bool {
    &&& proof.v_t@ == curve_base_mul(c, beta)
    &&& proof.w_t@ == curve_mul(c, before, beta)
    &&& is_fr(proof.beta_z@)
    &&& be_value(proof.beta_z@) == (beta + x * pair_challenge(c, y, before, after, proof.v_t@, proof.w_t@))
        % fr_modulus()
}

/// The challenge of a proof on `c`, hashed from the five encodings.
fn compute_pair_challenge(c: Curve, y: &Vec<u8>, before: &Vec<u8>, after: &Vec<u8>, v: &Vec<u8>, w: &Vec<u8>) -> (r: Vec<u8>)
    ensures
        is_fr(r@),
        be_value(r@) == pair_challenge(c, y@, before@, after@, v@, w@),
{
    let mut input: Vec<u8> = Vec::new();
    append_bytes(&mut input, y.as_slice());
    append_bytes(&mut input, before.as_slice());
    append_bytes(&mut input, after.as_slice());
    append_bytes(&mut input, v.as_slice());
    append_bytes(&mut input, w.as_slice());
    assert(input@ =~= y@ + before@ + after@ + v@ + w@);
    hash_to_fr(&input, &proof_tag_of(c))
}

/// What the server holds, as values: its secret exponent and the secrets
/// of the cards it redeemed.
pub struct PairServerView {
    pub secret: nat,
    pub public_g1: Seq<u8>,
    pub public_g2: Seq<u8>,
    pub ledger: Set<Seq<u8>>,
}

impl PairServerView {
    /// The public key on `c`.
    pub open spec fn public_key(self, c: Curve) -> Seq<u8> {
        match c {
            Curve::G1 => self.public_g1,
            Curve::G2 => self.public_g2,
        }
    }
}

/// The server of the mergeable cards: its secret exponent `x`, the ledger of
/// redeemed card secrets, and its public keys `g1^x` and `g2^x`.
pub struct PairServerData {
    secret: Vec<u8>,
    used_cards: Ledger,
    pub pub_secret_g1: Vec<u8>,
    pub pub_secret_g2: Vec<u8>,
}

/// The pairing that two merged cards show after `n` punches in all by the
/// secret `x`: `e(H1(secret1)^(x^n), H2(secret2))`.
pub open spec fn expected_pairing(x: nat, secret1: Seq<u8>, secret2: Seq<u8>, n: nat) -> Seq<u8> {
    gt_pairing(
        g1_mul(g1_hash(secret1, card_tag(Curve::G1)), (pow(x as int, n) % (fr_modulus() as int)) as nat),
        g2_hash(secret2, card_tag(Curve::G2)),
    )
}

/// How redeeming two merged cards changes the server: an undecodable
/// pairing is an error; otherwise it succeeds exactly when the pairing is
/// the expected one and both secrets are new and distinct, and only then
/// do both secrets enter the ledger.
pub open spec fn pair_verify_outcome(
    before: PairServerView,
    card: Seq<u8>,
    secret1: Seq<u8>,
    secret2: Seq<u8>,
    n: nat,
    after: PairServerView,
    r: Result<bool, PunchError>,
) -> bool {
    &&& after.secret == before.secret
    &&& after.public_g1 == before.public_g1
    &&& after.public_g2 == before.public_g2
    &&& r is Err <==> !gt_decodes(card)
    &&& r is Err ==> after.ledger == before.ledger
    &&& r matches Ok(ok) ==> {
        let accepted = gt_reencode(card) == expected_pairing(before.secret, secret1, secret2, n)
            && !before.ledger.contains(secret1) && !before.ledger.contains(secret2) && secret1 != secret2;
        &&& ok == accepted
        &&& after.ledger == if accepted { before.ledger.insert(secret1).insert(secret2) } else { before.ledger }
    }
}

impl View for PairServerData {
    type V = PairServerView;

    closed spec fn view(&self) -> PairServerView {
        PairServerView {
            secret: be_value(self.secret@),
            public_g1: self.pub_secret_g1@,
            public_g2: self.pub_secret_g2@,
            ledger: self.used_cards@,
        }
    }
}

impl PairServerData {
    /// The secret is an element of Fr and the ledger is sound.
    pub closed spec fn wf(&self) -> bool {
        &&& self.used_cards.wf()
        &&& is_fr(self.secret@)
    }

    /// A server with a fresh random secret.
    pub fn pair_server_setup() -> (r: PairServerData)
        ensures
            r.wf(),
            r@.secret < fr_modulus(),
            r@.public_g1 == curve_base_mul(Curve::G1, r@.secret),
            r@.public_g2 == curve_base_mul(Curve::G2, r@.secret),
            r@.ledger == Set::<Seq<u8>>::empty(),
    {
        let secret = random_fr();
        Self::pair_server_from_secret(secret)
    }

    /// A server with the secret `secret`.
    pub fn pair_server_from_secret(secret: Vec<u8>) -> (r: PairServerData)
        requires
            is_fr(secret@),
        ensures
            r.wf(),
            r@.secret < fr_modulus(),
            r@.secret == be_value(secret@),
            r@.public_g1 == curve_base_mul(Curve::G1, r@.secret),
            r@.public_g2 == curve_base_mul(Curve::G2, r@.secret),
            r@.ledger == Set::<Seq<u8>>::empty(),
    {
        let pub_secret_g1 = base_mul_on(Curve::G1, &secret);
        let pub_secret_g2 = base_mul_on(Curve::G2, &secret);
        PairServerData { secret, used_cards: Ledger::new(), pub_secret_g1, pub_secret_g2 }
    }

    /// Punches both halves of a card with fresh nonces and proves each
    /// punch. The halves passed in are left as they are.
    pub fn pair_server_punch(&self, compressed_card1: &mut Vec<u8>, compressed_card2: &mut Vec<u8>)
        -> (r: Result<(Vec<u8>, Vec<u8>, PairProof, PairProof), PunchError>)
        requires
            self.wf(),
        ensures
            final(compressed_card1)@ == old(compressed_card1)@,
            final(compressed_card2)@ == old(compressed_card2)@,
            r is Err <==> !(curve_decodes(Curve::G1, old(compressed_card1)@)
                && curve_decodes(Curve::G2, old(compressed_card2)@)),
            r matches Ok((after1, after2, proof1, proof2)) ==> {
                &&& after1@ == curve_mul(Curve::G1, old(compressed_card1)@, self@.secret)
                &&& after2@ == curve_mul(Curve::G2, old(compressed_card2)@, self@.secret)
                &&& exists|beta: nat| #[trigger] is_honest_pair_proof(Curve::G1, self@.secret,
                    self@.public_g1, old(compressed_card1)@, after1@, proof1, beta)
                &&& exists|beta: nat| #[trigger] is_honest_pair_proof(Curve::G2, self@.secret,
                    self@.public_g2, old(compressed_card2)@, after2@, proof2, beta)
            },
    {
        let beta1 = random_fr();
        let beta2 = random_fr();
        let r = self.pair_server_punch_with_nonces(compressed_card1, compressed_card2, &beta1, &beta2);
        proof {
            if r is Ok {
                let (after1, after2, proof1, proof2) = r->Ok_0;
                assert(is_honest_pair_proof(Curve::G1, self@.secret, self@.public_g1,
                    compressed_card1@, after1@, proof1, be_value(beta1@)));
                assert(is_honest_pair_proof(Curve::G2, self@.secret, self@.public_g2,
                    compressed_card2@, after2@, proof2, be_value(beta2@)));
            }
        }
        r
    }

    /// Punches both halves of a card, proving the punch on G1 with the
    /// nonce `beta1` and the one on G2 with `beta2`.
    pub fn pair_server_punch_with_nonces(
        &self,
        card1: &Vec<u8>,
        card2: &Vec<u8>,
        beta1: &Vec<u8>,
        beta2: &Vec<u8>,
    ) -> (r: Result<(Vec<u8>, Vec<u8>, PairProof, PairProof), PunchError>)
        requires
            self.wf(),
            is_fr(beta1@),
            is_fr(beta2@),
        ensures
            r is Err <==> !(curve_decodes(Curve::G1, card1@) && curve_decodes(Curve::G2, card2@)),
            r matches Ok((after1, after2, proof1, proof2)) ==> {
                &&& after1@ == curve_mul(Curve::G1, card1@, self@.secret)
                &&& after2@ == curve_mul(Curve::G2, card2@, self@.secret)
                &&& is_honest_pair_proof(Curve::G1, self@.secret, self@.public_g1, card1@,
                    after1@, proof1, be_value(beta1@))
                &&& is_honest_pair_proof(Curve::G2, self@.secret, self@.public_g2, card2@,
                    after2@, proof2, be_value(beta2@))
            },
    {
        let (after1, proof1) = match self.pair_server_punch_part(Curve::G1, card1, beta1) {
            Ok(p) => p,
            Err(e) => return Err(e),
        };
        let (after2, proof2) = match self.pair_server_punch_part(Curve::G2, card2, beta2) {
            Ok(p) => p,
            Err(e) => return Err(e),
        };
        Ok((after1, after2, proof1, proof2))
    }

    /// Punches one half of a card on `c` and proves it with the nonce `beta`.
    fn pair_server_punch_part(&self, c: Curve, card: &Vec<u8>, beta: &Vec<u8>) -> (r: Result<(Vec<u8>, PairProof), PunchError>)
        requires
            self.wf(),
            is_fr(beta@),
        ensures
            r is Err <==> !curve_decodes(c, card@),
            r matches Ok((after, proof)) ==> {
                &&& after@ == curve_mul(c, card@, self@.secret)
                &&& is_honest_pair_proof(c, self@.secret, self@.public_key(c), card@, after@, proof, be_value(beta@))
            },
    {
        let pub_secret = match c {
            Curve::G1 => &self.pub_secret_g1,
            Curve::G2 => &self.pub_secret_g2,
        };
        let after = match point_mul_on(c, card, &self.secret) {
            Some(p) => p,
            None => return Err(PunchError::MalformedEncoding),
        };
        let v_t = base_mul_on(c, beta);
        let w_t = match point_mul_on(c, card, beta) {
            Some(p) => p,
            None => return Err(PunchError::MalformedEncoding),
        };
        let chal = compute_pair_challenge(c, pub_secret, card, &after, &v_t, &w_t);
        let xc = fr_mul(&chal, &self.secret);
        let beta_z = fr_add(&xc, beta);
        proof {
            let m = fr_modulus() as int;
            vstd::arithmetic::div_mod::lemma_add_mod_noop_right(
                be_value(beta@) as int, (be_value(chal@) * be_value(self.secret@)) as int, m);
            lemma_small_mod(be_value(beta@), fr_modulus());
            assert(be_value(chal@) * be_value(self.secret@) == be_value(self.secret@) * be_value(chal@)) by (nonlinear_arith);
        }
        Ok((after, PairProof { v_t, w_t, beta_z }))
    }

    /// Redeems two merged cards: succeeds when the pairing `compressed_card1`
    /// is `e(H1(secret1)^(x^num_punches), H2(secret2))` and both secrets are
    /// new and distinct; then both enter the ledger. The pairing passed in
    /// is left as it is.
    pub fn pair_server_verify(&mut self, compressed_card1: &mut Vec<u8>, secret1: [u8; 32], secret2: [u8; 32], num_punches: u32)
        -> (r: Result<bool, PunchError>)
        requires
            old(self).wf(),
        ensures
            final(self).wf(),
            final(compressed_card1)@ == old(compressed_card1)@,
            pair_verify_outcome(old(self)@, old(compressed_card1)@, secret1@, secret2@,
                num_punches as nat, final(self)@, r),
            final(self)@.ledger.finite(),
            final(self)@.ledger.len() == old(self)@.ledger.len() + if r matches Ok(true) { 2int } else { 0int },
    {
        proof {
            self.used_cards.lemma_finite();
        }
        let exponent = fr_pow(&self.secret, num_punches as u64);
        let hashed1 = hash_to_curve_on(Curve::G1, &secret1, &card_tag_of(Curve::G1));
        let hashed2 = hash_to_curve_on(Curve::G2, &secret2, &card_tag_of(Curve::G2));
        let punched1 = match point_mul_on(Curve::G1, &hashed1, &exponent) {
            Some(p) => p,
            None => hashed1,
        };
        let expected = match pairing_exec(&punched1, &hashed2) {
            Some(p) => p,
            None => Vec::new(),
        };
        let presented = match gt_normalize(compressed_card1) {
            Some(p) => p,
            None => return Err(PunchError::MalformedEncoding),
        };
        if !bytes_equal(presented.as_slice(), expected.as_slice()) {
            return Ok(false);
        }
        if bytes_equal(secret1.as_slice(), secret2.as_slice()) || self.used_cards.contains(&secret1)
            || self.used_cards.contains(&secret2) {
            return Ok(false);
        }
        self.used_cards.insert(secret1);
        self.used_cards.insert(secret2);
        Ok(true)
    }

    /// Fills the ledger with the encodings of the scalars `0 .. num`, to
    /// measure redemption against a ledger of that size.
    pub fn pair_cheat_setup_db(&mut self, num: u32)
        requires
            old(self).wf(),
        ensures
            final(self).wf(),
            final(self)@.secret == old(self)@.secret,
            final(self)@.public_g1 == old(self)@.public_g1,
            final(self)@.public_g2 == old(self)@.public_g2,
            final(self)@.ledger == old(self)@.ledger.union(
                Set::new(|s: Seq<u8>| s.len() == 32 && le_value(s) < num),
            ),
            final(self)@.ledger.finite(),
    {
        let mut i: u32 = 0;
        while i < num
            invariant
                0 <= i <= num,
                self.wf(),
                self@.secret == old(self)@.secret,
                self@.public_g1 == old(self)@.public_g1,
                self@.public_g2 == old(self)@.public_g2,
                self@.ledger == old(self)@.ledger.union(
                    Set::new(|s: Seq<u8>| s.len() == 32 && le_value(s) < i),
                ),
            decreases num - i,
        {
            let b = scalar_from_u32(i);
            self.used_cards.insert(b);
            proof {
                let prev = Set::new(|s: Seq<u8>| s.len() == 32 && le_value(s) < i);
                let next = Set::new(|s: Seq<u8>| s.len() == 32 && le_value(s) < i + 1);
                assert(next =~= prev.insert(b@)) by {
                    assert forall|s: Seq<u8>| next.contains(s) implies prev.insert(b@).contains(s) by {
                        if le_value(s) == i {
                            crate::ristretto::lemma_le_value_injective(s, b@);
                        }
                    }
                }
                assert(self@.ledger =~= old(self)@.ledger.union(next));
            }
            i = i + 1;
        }
        proof {
            self.used_cards.lemma_finite();
        }
    }

    /// The number of redeemed card secrets.
    pub fn pair_count_cards(&self) -> (r: usize)
        requires
            self.wf(),
        ensures
            r == self@.ledger.len(),
    {
        self.used_cards.len()
    }
}

/// What one half of a mergeable card holds, as values.
pub struct PartView {
    pub secret: Seq<u8>,
    pub representative: Seq<u8>,
    pub mask: nat,
    pub count: nat,
}

/// What a mergeable card holds, as values: its half on G1 and its half on G2.
pub struct PairCardView {
    pub g1: PartView,
    pub g2: PartView,
}

/// One half of a mergeable card: the card's secret, the half's blinded
/// representative, the mask that blinds it, and how often it was punched.
pub struct PairPunchCardPart {
    card_secret: [u8; 32],
    punch_card: Vec<u8>,
    last_mask: Vec<u8>,
    count: u32,
}

/// A mergeable card: two halves, on G1 and on G2, with one secret.
pub struct PairPunchCard {
    g1card: PairPunchCardPart,
    g2card: PairPunchCardPart,
}

/// The half on `c` after an accepted punch to `after`: unmasked by the old
/// mask, blinded again by `new_mask`, counted once more.
pub open spec fn part_remasked(c: Curve, before: PartView, after: Seq<u8>, new_mask: nat) -> PartView {
    PartView {
        secret: before.secret,
        representative: curve_mul(c, curve_mul(c, after, fr_inverse_of(before.mask)), new_mask),
        mask: new_mask,
        count: before.count + 1,
    }
}

/// The half on `c` of a new card with `secret`, masked by `mask`.
pub open spec fn fresh_part(c: Curve, secret: Seq<u8>, mask: nat) -> PartView {
    PartView {
        secret: secret,
        representative: curve_mul(c, curve_hash(c, secret, card_tag(c)), mask),
        mask: mask,
        count: 0,
    }
}

/// How checking a punch of both halves changes a card, with `mask1` and
/// `mask2` as the fresh masks: undecodable input is an error and changes
/// nothing; otherwise the punch is accepted exactly when both proofs are,
/// and only then are both halves remasked. The representatives returned are
/// the card's current ones.
pub open spec fn pair_remask_outcome(
    before: PairCardView,
    card1: Seq<u8>,
    card2: Seq<u8>,
    y1: Seq<u8>,
    y2: Seq<u8>,
    proof1: PairProof,
    proof2: PairProof,
    mask1: nat,
    mask2: nat,
    after: PairCardView,
    r: Result<(Vec<u8>, Vec<u8>, bool), PunchError>,
) -> bool {
    &&& r is Err <==> !(pair_proof_decodes(Curve::G1, y1, card1, proof1)
        && pair_proof_decodes(Curve::G2, y2, card2, proof2))
    &&& r is Err ==> after == before
    &&& r matches Ok((shown1, shown2, accepted)) ==> {
        &&& accepted == (pair_proof_accepts(Curve::G1, y1, before.g1.representative, card1, proof1)
            && pair_proof_accepts(Curve::G2, y2, before.g2.representative, card2, proof2))
        &&& after == if accepted {
            PairCardView {
                g1: part_remasked(Curve::G1, before.g1, card1, mask1),
                g2: part_remasked(Curve::G2, before.g2, card2, mask2),
            }
        } else {
            before
        }
        &&& shown1@ == after.g1.representative
        &&& shown2@ == after.g2.representative
    }
}

impl View for PairPunchCardPart {
    type V = PartView;

    closed spec fn view(&self) -> PartView {
        PartView {
            secret: self.card_secret@,
            representative: self.punch_card@,
            mask: be_value(self.last_mask@),
            count: self.count as nat,
        }
    }
}

impl PairPunchCardPart {
    /// The representative is a point of `c` and the mask can be inverted.
    pub closed spec fn wf_on(&self, c: Curve) -> bool {
        &&& curve_decodes(c, self.punch_card@)
        &&& is_fr(self.last_mask@)
        &&& be_value(self.last_mask@) != 0
    }

    /// Checks the server's proof for a punch of this half, on `c`, to `after`.
    fn check_part(&self, c: Curve, after: &Vec<u8>, pub_secret: &Vec<u8>, proof: &PairProof) -> (r: Result<bool, PunchError>)
        requires
            self.wf_on(c),
        ensures
            r is Err <==> !pair_proof_decodes(c, pub_secret@, after@, *proof),
            r matches Ok(ok) ==> ok == pair_proof_accepts(c, pub_secret@, self@.representative, after@, *proof),
    {
        let chal = compute_pair_challenge(c, pub_secret, &self.punch_card, after, &proof.v_t, &proof.w_t);
        let yc = match point_mul_on(c, pub_secret, &chal) {
            Some(p) => p,
            None => return Err(PunchError::MalformedEncoding),
        };
        let vtvc = match point_add_on(c, &proof.v_t, &yc) {
            Some(p) => p,
            None => return Err(PunchError::MalformedEncoding),
        };
        let ac = match point_mul_on(c, after, &chal) {
            Some(p) => p,
            None => return Err(PunchError::MalformedEncoding),
        };
        let wtwc = match point_add_on(c, &proof.w_t, &ac) {
            Some(p) => p,
            None => return Err(PunchError::MalformedEncoding),
        };
        let z = match fr_decode(&proof.beta_z) {
            Some(z) => z,
            None => return Err(PunchError::MalformedEncoding),
        };
        let gbz = base_mul_on(c, &z);
        let ubz = match point_mul_on(c, &self.punch_card, &z) {
            Some(p) => p,
            None => return Err(PunchError::MalformedEncoding),
        };
        Ok(bytes_equal(gbz.as_slice(), vtvc.as_slice()) && bytes_equal(ubz.as_slice(), wtwc.as_slice()))
    }

    /// Unmasks the punched half `after` on `c`, masks it again with
    /// `new_mask` and counts the punch.
    fn remask_part(&mut self, c: Curve, after: &Vec<u8>, new_mask: Vec<u8>)
        requires
            old(self).wf_on(c),
            curve_decodes(c, after@),
            is_fr(new_mask@),
            be_value(new_mask@) != 0,
            old(self)@.count < u32::MAX,
        ensures
            final(self).wf_on(c),
            final(self)@ == part_remasked(c, old(self)@, after@, be_value(new_mask@)),
    {
        let inverse = fr_inverse(&self.last_mask);
        proof {
            lemma_fr_inverse_unique(be_value(inverse@), be_value(self.last_mask@));
        }
        let unmasked = match point_mul_on(c, after, &inverse) {
            Some(p) => p,
            None => after.clone(),
        };
        let remasked = match point_mul_on(c, &unmasked, &new_mask) {
            Some(p) => p,
            None => unmasked,
        };
        self.punch_card = remasked;
        self.last_mask = new_mask;
        self.count = self.count + 1;
    }

    /// A new half on `c` for `card_secret`, masked by `mask`.
    fn card_part_setup(c: Curve, card_secret: [u8; 32], mask: Vec<u8>) -> (r: (Vec<u8>, PairPunchCardPart))
        requires
            is_fr(mask@),
            be_value(mask@) != 0,
        ensures
            r.1.wf_on(c),
            r.1@ == fresh_part(c, card_secret@, be_value(mask@)),
            r.0@ == r.1@.representative,
    {
        let hashed = hash_to_curve_on(c, &card_secret, &card_tag_of(c));
        let punch_card = match point_mul_on(c, &hashed, &mask) {
            Some(p) => p,
            None => hashed,
        };
        let shown = punch_card.clone();
        (shown, PairPunchCardPart { card_secret, punch_card, last_mask: mask, count: 0 })
    }
}

impl View for PairPunchCard {
    type V = PairCardView;

    closed spec fn view(&self) -> PairCardView {
        PairCardView { g1: self.g1card@, g2: self.g2card@ }
    }
}

impl PairPunchCard {
    /// Both halves are sound, share the card's secret, and were punched
    /// equally often.
    pub closed spec fn wf(&self) -> bool {
        &&& self.g1card.wf_on(Curve::G1)
        &&& self.g2card.wf_on(Curve::G2)
        &&& self.g1card.card_secret@ == self.g2card.card_secret@
        &&& self.g1card.count == self.g2card.count
    }

    /// A new card with a random secret and random masks; returns the
    /// representatives of its two halves too, already masked.
    pub fn card_setup() -> (r: (Vec<u8>, Vec<u8>, PairPunchCard))
        ensures
            r.2.wf(),
            0 < r.2@.g1.mask < fr_modulus(),
            0 < r.2@.g2.mask < fr_modulus(),
            r.2@.g1.secret.len() == 32,
            r.2@.g1 == fresh_part(Curve::G1, r.2@.g1.secret, r.2@.g1.mask),
            r.2@.g2 == fresh_part(Curve::G2, r.2@.g1.secret, r.2@.g2.mask),
            r.0@ == r.2@.g1.representative,
            r.1@ == r.2@.g2.representative,
    {
        let card_secret = random_bytes();
        let mask1 = fresh_fr_mask();
        let mask2 = fresh_fr_mask();
        Self::card_from_parts(card_secret, mask1, mask2)
    }

    /// A new card with the secret `card_secret`, its half on G1 masked by
    /// `mask1` and its half on G2 by `mask2`.
    pub fn card_from_parts(card_secret: [u8; 32], mask1: Vec<u8>, mask2: Vec<u8>) -> (r: (Vec<u8>, Vec<u8>, PairPunchCard))
        requires
            is_fr(mask1@),
            be_value(mask1@) != 0,
            is_fr(mask2@),
            be_value(mask2@) != 0,
        ensures
            r.2.wf(),
            0 < r.2@.g1.mask < fr_modulus(),
            0 < r.2@.g2.mask < fr_modulus(),
            r.2@ == (PairCardView {
                g1: fresh_part(Curve::G1, card_secret@, be_value(mask1@)),
                g2: fresh_part(Curve::G2, card_secret@, be_value(mask2@)),
            }),
            r.0@ == r.2@.g1.representative,
            r.1@ == r.2@.g2.representative,
    {
        let (card1, client1) = PairPunchCardPart::card_part_setup(Curve::G1, card_secret, mask1);
        let (card2, client2) = PairPunchCardPart::card_part_setup(Curve::G2, card_secret, mask2);
        (card1, card2, PairPunchCard { g1card: client1, g2card: client2 })
    }

    /// Checks the server's proofs for a punch of both halves; if both hold,
    /// unmasks both punched halves, masks them again with fresh random masks
    /// and counts the punch. Returns the card's representatives and whether
    /// the punch was accepted.
    pub fn verify_remask(
        &mut self,
        compressed_card1: Vec<u8>,
        compressed_card2: Vec<u8>,
        pub_secret_g1: &Vec<u8>,
        pub_secret_g2: &Vec<u8>,
        proof1: PairProof,
        proof2: PairProof,
    ) -> (r: Result<(Vec<u8>, Vec<u8>, bool), PunchError>)
        requires
            old(self).wf(),
            old(self)@.g1.count < u32::MAX,
        ensures
            final(self).wf(),
            exists|m1: nat, m2: nat| 0 < m1 < fr_modulus() && 0 < m2 < fr_modulus()
                && #[trigger] pair_remask_outcome(old(self)@, compressed_card1@, compressed_card2@,
                    pub_secret_g1@, pub_secret_g2@, proof1, proof2, m1, m2, final(self)@, r),
    {
        let mask1 = fresh_fr_mask();
        let mask2 = fresh_fr_mask();
        let ghost (m1, m2) = (be_value(mask1@), be_value(mask2@));
        let ghost (c1, c2) = (compressed_card1@, compressed_card2@);
        let r = self.verify_remask_with_masks(compressed_card1, compressed_card2, pub_secret_g1,
            pub_secret_g2, proof1, proof2, mask1, mask2);
        assert(pair_remask_outcome(old(self)@, c1, c2, pub_secret_g1@, pub_secret_g2@, proof1, proof2,
            m1, m2, self@, r));
        r
    }

    /// As `verify_remask`, with `mask1` and `mask2` as the fresh masks of the
    /// halves on G1 and on G2.
    pub fn verify_remask_with_masks(
        &mut self,
        compressed_card1: Vec<u8>,
        compressed_card2: Vec<u8>,
        pub_secret_g1: &Vec<u8>,
        pub_secret_g2: &Vec<u8>,
        proof1: PairProof,
        proof2: PairProof,
        mask1: Vec<u8>,
        mask2: Vec<u8>,
    ) -> (r: Result<(Vec<u8>, Vec<u8>, bool), PunchError>)
        requires
            old(self).wf(),
            old(self)@.g1.count < u32::MAX,
            is_fr(mask1@),
            be_value(mask1@) != 0,
            is_fr(mask2@),
            be_value(mask2@) != 0,
        ensures
            final(self).wf(),
            pair_remask_outcome(old(self)@, compressed_card1@, compressed_card2@, pub_secret_g1@,
                pub_secret_g2@, proof1, proof2, be_value(mask1@), be_value(mask2@), final(self)@, r),
    {
        let ok1 = self.g1card.check_part(Curve::G1, &compressed_card1, pub_secret_g1, &proof1);
        let ok2 = self.g2card.check_part(Curve::G2, &compressed_card2, pub_secret_g2, &proof2);
        let accepted = match (ok1, ok2) {
            (Ok(a), Ok(b)) => a && b,
            _ => return Err(PunchError::MalformedEncoding),
        };
        if accepted {
            self.g1card.remask_part(Curve::G1, &compressed_card1, mask1);
            self.g2card.remask_part(Curve::G2, &compressed_card2, mask2);
        }
        Ok((self.g1card.punch_card.clone(), self.g2card.punch_card.clone(), accepted))
    }

    /// Merges this card with `other` for redemption: unmasks this card's
    /// half on G1 and the other card's half on G2 and pairs them. Returns
    /// both secrets and the encoded pairing. Neither card may be punched
    /// afterwards.
    pub fn pair_unmask_redeem(&mut self, other: PairPunchCard) -> (r: ([u8; 32], [u8; 32], Vec<u8>))
        requires
            old(self).wf(),
            other.wf(),
        ensures
            final(self).wf(),
            r.0@ == old(self)@.g1.secret,
            r.1@ == other@.g1.secret,
            r.2@ == gt_pairing(
                curve_mul(Curve::G1, old(self)@.g1.representative, fr_inverse_of(old(self)@.g1.mask)),
                curve_mul(Curve::G2, other@.g2.representative, fr_inverse_of(other@.g2.mask)),
            ),
            final(self)@ == (PairCardView {
                g1: PartView {
                    representative: curve_mul(Curve::G1, old(self)@.g1.representative,
                        fr_inverse_of(old(self)@.g1.mask)),
                    ..old(self)@.g1
                },
                g2: old(self)@.g2,
            }),
    {
        let inverse1 = fr_inverse(&self.g1card.last_mask);
        let inverse2 = fr_inverse(&other.g2card.last_mask);
        proof {
            lemma_fr_inverse_unique(be_value(inverse1@), be_value(self.g1card.last_mask@));
            lemma_fr_inverse_unique(be_value(inverse2@), be_value(other.g2card.last_mask@));
        }
        let unmasked1 = match point_mul_on(Curve::G1, &self.g1card.punch_card, &inverse1) {
            Some(p) => p,
            None => self.g1card.punch_card.clone(),
        };
        let unmasked2 = match point_mul_on(Curve::G2, &other.g2card.punch_card, &inverse2) {
            Some(p) => p,
            None => other.g2card.punch_card.clone(),
        };
        let merged = match pairing_exec(&unmasked1, &unmasked2) {
            Some(p) => p,
            None => Vec::new(),
        };
        self.g1card.punch_card = unmasked1;
        (self.g1card.card_secret, other.g1card.card_secret, merged)
    }

    /// How often the card was punched; both halves agree on it.
    pub fn pair_get_count(&self) -> (r: u32)
        requires
            self.wf(),
        ensures
            r == self@.g1.count,
            r == self@.g2.count,
    {
        self.g1card.count
    }

    /// Blinds the half on G1 once more by its mask and returns it.
    pub fn exp_test_g1(&mut self) -> (r: Vec<u8>)
        requires
            old(self).wf(),
        ensures
            final(self).wf(),
            r@ == curve_mul(Curve::G1, old(self)@.g1.representative, old(self)@.g1.mask),
            final(self)@ == (PairCardView { g1: PartView { representative: r@, ..old(self)@.g1 }, ..old(self)@ }),
    {
        let blinded = match point_mul_on(Curve::G1, &self.g1card.punch_card, &self.g1card.last_mask) {
            Some(p) => p,
            None => self.g1card.punch_card.clone(),
        };
        self.g1card.punch_card = blinded.clone();
        blinded
    }

    /// Blinds the half on G2 once more by its mask and returns it.
    pub fn exp_test_g2(&mut self) -> (r: Vec<u8>)
        requires
            old(self).wf(),
        ensures
            final(self).wf(),
            r@ == curve_mul(Curve::G2, old(self)@.g2.representative, old(self)@.g2.mask),
            final(self)@ == (PairCardView { g2: PartView { representative: r@, ..old(self)@.g2 }, ..old(self)@ }),
    {
        let blinded = match point_mul_on(Curve::G2, &self.g2card.punch_card, &self.g2card.last_mask) {
            Some(p) => p,
            None => self.g2card.punch_card.clone(),
        };
        self.g2card.punch_card = blinded.clone();
        blinded
    }

    /// The pairing of the card's own two halves.
    pub fn pair_test(&mut self) -> (r: Vec<u8>)
        requires
            old(self).wf(),
        ensures
            *final(self) == *old(self),
            r@ == gt_pairing(old(self)@.g1.representative, old(self)@.g2.representative),
    {
        match pairing_exec(&self.g1card.punch_card, &self.g2card.punch_card) {
            Some(p) => p,
            None => Vec::new(),
        }
    }
}

} // verus!
