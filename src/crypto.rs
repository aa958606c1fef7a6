//! The punch-card protocol over the Ristretto group: the server's key and
//! ledger, the client's card, and the Chaum-Pedersen proof of each punch.

use vstd::prelude::*;
use vstd::arithmetic::div_mod::lemma_small_mod;
use vstd::arithmetic::div_mod::lemma_mul_mod_noop_general;
use vstd::arithmetic::power::{
    lemma_pow0, lemma_pow1, lemma_pow_adds, lemma_pow_mod_noop, lemma_pow_multiplies,
    lemma_square_is_pow2, pow,
};
use curve25519_dalek::ristretto::CompressedRistretto;
use crate::bytes::{append_bytes, bytes_equal};
use crate::error::PunchError;
use crate::ledger::Ledger;
use crate::ristretto::{
    base_mul, fresh_mask, group_order, hash_to_point, hash_to_scalar, is_canonical_scalar,
    le_value, point_add, point_mul, random_bytes, random_scalar, ristretto_add,
    ristretto_base_mul, ristretto_decodes, ristretto_hash, ristretto_mul, scalar_hash,
    scalar_add, scalar_inverse, scalar_invert, scalar_mul, scalar_of,
};

verus! {

/// A proof that the server raised a card to the exponent behind its public
/// key: commitments `v_t = g^beta`, `w_t = card^beta` and the response
/// `beta_z = beta + secret * challenge`.
pub struct Proof {
    pub v_t: CompressedRistretto,
    pub w_t: CompressedRistretto,
    pub beta_z: [u8; 32],
}

impl Proof {
    /// The wire form of the proof: `v_t`, `w_t` and `beta_z`, 32 bytes each.
    pub fn to_bytes(&self) -> (r: Vec<u8>)
        ensures
            r@ == self.v_t.0@ + self.w_t.0@ + self.beta_z@,
            r@.len() == 96,
    {
        let mut out: Vec<u8> = Vec::new();
        append_bytes(&mut out, self.v_t.0.as_slice());
        append_bytes(&mut out, self.w_t.0.as_slice());
        append_bytes(&mut out, self.beta_z.as_slice());
        out
    }

    /// Reads a proof from its wire form; `None` unless there are exactly 96
    /// bytes. The points are not decoded here.
    pub fn from_bytes(b: &[u8]) -> (r: Option<Proof>)
        ensures
            r is Some <==> b@.len() == 96,
            r matches Some(p) ==> p.v_t.0@ == b@.subrange(0, 32) && p.w_t.0@ == b@.subrange(32, 64)
                && p.beta_z@ == b@.subrange(64, 96),
    {
        if b.len() != 96 {
            return None;
        }
        let v = read_32(b, 0);
        let w = read_32(b, 32);
        let z = read_32(b, 64);
        Some(Proof { v_t: CompressedRistretto(v), w_t: CompressedRistretto(w), beta_z: z })
    }
}

/// The 32 bytes of `b` from `start` on.
fn read_32(b: &[u8], start: usize) -> (r: [u8; 32])
    requires
        b@.len() == 96,
        start <= 64,
    ensures
        r@ == b@.subrange(start as int, start + 32),
{
    let mut r: [u8; 32] = [0u8; 32];
    let mut i: usize = 0;
    while i < 32
        invariant
            b@.len() == 96,
            start <= 64,
            0 <= i <= 32,
            r@.len() == 32,
            forall|j: int| 0 <= j < i ==> r@[j] == b@[start + j],
        decreases 32 - i,
    {
        r[i] = b[start + i];
        i = i + 1;
    }
    assert(r@ =~= b@.subrange(start as int, start + 32));
    r
}

/// What the hash of the challenge is computed over: the public key, the
/// card before and after the punch, and the two commitments.
pub open spec fn challenge_input(
    y: Seq<u8>,
    before: Seq<u8>,
    after: Seq<u8>,
    v: Seq<u8>,
    w: Seq<u8>,
) -> Seq<u8> {
    y + before + after + v + w
}

/// The challenge scalar of a proof.
pub open spec fn challenge(y: Seq<u8>, before: Seq<u8>, after: Seq<u8>, v: Seq<u8>, w: Seq<u8>) -> nat {
    le_value(scalar_hash(challenge_input(y, before, after, v, w))) % group_order()
}

/// Whether every encoding that checking a proof decodes is a point.
pub open spec fn proof_decodes(y: Seq<u8>, after: Seq<u8>, proof: Proof) -> bool {
    &&& ristretto_decodes(proof.v_t.0@)
    &&& ristretto_decodes(y)
    &&& ristretto_decodes(proof.w_t.0@)
    &&& ristretto_decodes(after)
}

/// The two equations that an accepted proof meets:
/// `g^z == v_t * y^c` and `before^z == w_t * after^c`.
pub open spec fn proof_accepts(y: Seq<u8>, before: Seq<u8>, after: Seq<u8>, proof: Proof) -> bool {
    let c = challenge(y, before, after, proof.v_t.0@, proof.w_t.0@);
    let z = scalar_of(proof.beta_z);
    &&& ristretto_base_mul(z) == ristretto_add(proof.v_t.0@, ristretto_mul(y, c))
    &&& ristretto_mul(before, z) == ristretto_add(proof.w_t.0@, ristretto_mul(after, c))
}

/// Whether `proof` is the honest proof, with nonce `beta`, that `after` is
/// `before` raised to the secret `x` behind the public key `y`.
pub open spec fn is_honest_proof(x: nat, y: Seq<u8>, before: Seq<u8>, after: Seq<u8>, proof: Proof, beta: nat) -> bool {
    &&& proof.v_t.0@ == ristretto_base_mul(beta)
    &&& proof.w_t.0@ == ristretto_mul(before, beta)
    &&& le_value(proof.beta_z@) == (beta + x * challenge(y, before, after, proof.v_t.0@, proof.w_t.0@))
        % group_order()
}

/// The challenge of a proof, hashed from the five encodings.
pub fn compute_challenge(
    y: &CompressedRistretto,
    before: &CompressedRistretto,
    after: &CompressedRistretto,
    v: &CompressedRistretto,
    w: &CompressedRistretto,
) -> (r: [u8; 32])
    ensures
        scalar_of(r) == challenge(y.0@, before.0@, after.0@, v.0@, w.0@),
{
    let mut input: Vec<u8> = Vec::new();
    append_bytes(&mut input, y.0.as_slice());
    append_bytes(&mut input, before.0.as_slice());
    append_bytes(&mut input, after.0.as_slice());
    append_bytes(&mut input, v.0.as_slice());
    append_bytes(&mut input, w.0.as_slice());
    assert(input@ =~= challenge_input(y.0@, before.0@, after.0@, v.0@, w.0@));
    hash_to_scalar(&input)
}

/// `base` raised to the power `exp`, modulo the group order, by repeated
/// squaring.
pub fn scalar_exponentiate(base: [u8; 32], exp: u32) -> (r: [u8; 32])
    requires
        exp >= 1,
    ensures
        scalar_of(r) == pow(scalar_of(base) as int, exp as nat) % (group_order() as int),
{
    let ghost a = scalar_of(base) as int;
    let ghost m = group_order() as int;
    let mut result = base;
    let mut b = base;
    let mut e: u32 = exp - 1;
    proof {
        lemma_pow_adds(a, 1, e as nat);
        lemma_pow1(a);
    }
    while e > 0
        invariant
            m == group_order(),
            (scalar_of(result) * pow(scalar_of(b) as int, e as nat)) % m == pow(a, exp as nat) % m,
        decreases e,
    {
        let ghost (r0, b0, e0) = (scalar_of(result) as int, scalar_of(b) as int, e as nat);
        proof {
            lemma_square_step(r0, b0, e0, m);
        }
        if e % 2 == 1 {
            result = scalar_mul(&result, &b);
            proof {
                lemma_small_mod(le_value(result@), group_order());
            }
        }
        b = scalar_mul(&b, &b);
        proof {
            lemma_small_mod(le_value(b@), group_order());
        }
        e = e / 2;
    }
    proof {
        lemma_pow0(scalar_of(b) as int);
        lemma_small_mod(scalar_of(result), group_order());
    }
    result
}

/// One step of square-and-multiply keeps `r * b^e` modulo `m`.
proof fn lemma_square_step(r: int, b: int, e: nat, m: int)
    requires
        m > 0,
        e > 0,
    ensures
        e % 2 == 1 ==> (((r * b) % m) * pow((b * b) % m, e / 2)) % m == (r * pow(b, e)) % m,
        e % 2 == 0 ==> (r * pow((b * b) % m, e / 2)) % m == (r * pow(b, e)) % m,
{
    let k = e / 2;
    let q = pow((b * b) % m, k);
    let p = pow(b * b, k);
    lemma_pow_mod_noop(b * b, k, m);
    lemma_square_is_pow2(b);
    lemma_pow_multiplies(b, 2, k);
    assert(p == pow(b, 2 * k));
    lemma_mul_mod_noop_general(r, q, m);
    lemma_mul_mod_noop_general(r, p, m);
    if e % 2 == 1 {
        lemma_pow_adds(b, 1, 2 * k);
        lemma_pow1(b);
        assert(pow(b, e) == b * p);
        lemma_mul_mod_noop_general(r * b, q, m);
        lemma_mul_mod_noop_general(r * b, p, m);
        assert((r * b) * p == r * (b * p)) by (nonlinear_arith);
    } else {
        assert(e == 2 * k);
    }
}

/// What the server holds, as values: its secret exponent, its public key
/// and the secrets of the cards it redeemed.
pub struct ServerView {
    pub secret: nat,
    pub public_key: Seq<u8>,
    pub ledger: Set<Seq<u8>>,
}

/// The server: its secret exponent `x`, the public key `g^x`, and the
/// ledger of redeemed card secrets.
pub struct ServerData {
    secret: [u8; 32],
    used_cards: Ledger,
    pub_secret: CompressedRistretto,
}

/// The representative that a card with `secret` shows after `n` punches by
/// the secret `x`, once unmasked: `H(secret)^(x^n)`.
pub open spec fn expected_representative(x: nat, secret: Seq<u8>, n: nat) -> Seq<u8> {
    ristretto_mul(ristretto_hash(secret), (pow(x as int, n) % (group_order() as int)) as nat)
}

/// How a redemption changes the server: it succeeds exactly when the card
/// shows the expected representative and its secret is new, and the
/// secret enters the ledger whenever the representative matches.
pub open spec fn verify_outcome(
    before: ServerView,
    card: Seq<u8>,
    secret: Seq<u8>,
    n: nat,
    after: ServerView,
    r: bool,
) -> bool {
    &&& after.secret == before.secret
    &&& after.public_key == before.public_key
    &&& if card == expected_representative(before.secret, secret, n) {
        r == !before.ledger.contains(secret) && after.ledger == before.ledger.insert(secret)
    } else {
        !r && after.ledger == before.ledger
    }
}

impl View for ServerData {
    type V = ServerView;

    closed spec fn view(&self) -> ServerView {
        ServerView {
            secret: scalar_of(self.secret),
            public_key: self.pub_secret.0@,
            ledger: self.used_cards@,
        }
    }
}

impl ServerData {
    /// The public key is `g^x` for the secret `x`, and the ledger is sound.
    pub closed spec fn wf(&self) -> bool {
        &&& self.used_cards.wf()
        &&& is_canonical_scalar(self.secret)
        &&& self.pub_secret.0@ == ristretto_base_mul(scalar_of(self.secret))
    }

    /// A server with a fresh random secret; returns its public key too.
    pub fn server_setup() -> (r: (CompressedRistretto, ServerData))
        ensures
            r.1.wf(),
            r.1@.secret < group_order(),
            r.1@.public_key == ristretto_base_mul(r.1@.secret),
            r.0.0@ == r.1@.public_key,
            r.1@.ledger == Set::<Seq<u8>>::empty(),
    {
        let secret = random_scalar();
        Self::server_from_secret(secret)
    }

    /// A server with the secret `secret`; returns its public key too.
    pub fn server_from_secret(secret: [u8; 32]) -> (r: (CompressedRistretto, ServerData))
        requires
            is_canonical_scalar(secret),
        ensures
            r.1.wf(),
            r.1@.secret == scalar_of(secret),
            r.1@.public_key == ristretto_base_mul(scalar_of(secret)),
            r.0.0@ == r.1@.public_key,
            r.1@.ledger == Set::<Seq<u8>>::empty(),
    {
        let pub_secret = base_mul(&secret);
        let server = ServerData { secret, used_cards: Ledger::new(), pub_secret };
        (pub_secret, server)
    }

    /// The server's public key.
    pub fn public_key(&self) -> (r: CompressedRistretto)
        ensures
            r.0@ == self@.public_key,
    {
        self.pub_secret
    }

    /// Punches `card` with the secret and proves it, with a fresh nonce.
    pub fn server_punch(&self, card: CompressedRistretto) -> (r: Result<(CompressedRistretto, Proof), PunchError>)
        requires
            self.wf(),
        ensures
            r is Err <==> !ristretto_decodes(card.0@),
            r matches Ok((after, proof)) ==> {
                &&& after.0@ == ristretto_mul(card.0@, self@.secret)
                &&& exists|beta: nat| #[trigger] is_honest_proof(self@.secret, self@.public_key, card.0@, after.0@, proof, beta)
            },
    {
        let beta = random_scalar();
        let r = self.punch_with_nonce(card, beta);
        proof {
            if r is Ok {
                let (after, proof) = r->Ok_0;
                assert(is_honest_proof(self@.secret, self@.public_key, card.0@, after.0@, proof, scalar_of(beta)));
            }
        }
        r
    }

    /// Punches `card` with the secret and proves it with the nonce `beta`:
    /// the new card is `card^x`, and the proof commits to `g^beta` and
    /// `card^beta`.
    pub fn punch_with_nonce(&self, card: CompressedRistretto, beta: [u8; 32]) -> (r: Result<(CompressedRistretto, Proof), PunchError>)
        requires
            self.wf(),
        ensures
            r is Err <==> !ristretto_decodes(card.0@),
            r matches Ok((after, proof)) ==> {
                &&& after.0@ == ristretto_mul(card.0@, self@.secret)
                &&& is_honest_proof(self@.secret, self@.public_key, card.0@, after.0@, proof, scalar_of(beta))
            },
    {
        let after = match point_mul(&card, &self.secret) {
            Some(p) => p,
            None => return Err(PunchError::MalformedEncoding),
        };
        let v_t = base_mul(&beta);
        let w_t = match point_mul(&card, &beta) {
            Some(p) => p,
            None => return Err(PunchError::MalformedEncoding),
        };
        let chal = compute_challenge(&self.pub_secret, &card, &after, &v_t, &w_t);
        let xc = scalar_mul(&self.secret, &chal);
        let beta_z = scalar_add(&beta, &xc);
        proof {
            lemma_small_mod(le_value(self.secret@), group_order());
            lemma_small_mod(le_value(xc@), group_order());
            vstd::arithmetic::div_mod::lemma_add_mod_noop_right(
                scalar_of(beta) as int, (scalar_of(self.secret) * scalar_of(chal)) as int, group_order() as int);
        }
        Ok((after, Proof { v_t, w_t, beta_z }))
    }

    /// Redeems a card: true when `card` is `H(card_secret)^(x^num_punches)`
    /// and `card_secret` was not redeemed before; a matching secret enters
    /// the ledger.
    pub fn server_verify(&mut self, card: CompressedRistretto, card_secret: [u8; 32], num_punches: u32) -> (r: bool)
        requires
            old(self).wf(),
            num_punches >= 1,
        ensures
            final(self).wf(),
            verify_outcome(old(self)@, card.0@, card_secret@, num_punches as nat, final(self)@, r),
            final(self)@.ledger.finite(),
            final(self)@.ledger.len() == old(self)@.ledger.len() + if r { 1int } else { 0int },
    {
        proof {
            self.used_cards.lemma_finite();
        }
        let exponent = scalar_exponentiate(self.secret, num_punches);
        let base = hash_to_point(&card_secret);
        let expected = match point_mul(&base, &exponent) {
            Some(p) => p,
            None => return false,
        };
        proof {
            lemma_small_mod(le_value(self.secret@), group_order());
        }
        if bytes_equal(card.0.as_slice(), expected.0.as_slice()) {
            self.used_cards.insert(card_secret)
        } else {
            false
        }
    }

    /// The number of redeemed cards.
    pub fn count_cards(&self) -> (r: usize)
        requires
            self.wf(),
        ensures
            r == self@.ledger.len(),
    {
        self.used_cards.len()
    }

    /// Fills the ledger with the encodings of the scalars `0 .. num`, to
    /// measure redemption against a ledger of that size.
    pub fn cheat_setup_db(&mut self, num: u32)
        requires
            old(self).wf(),
        ensures
            final(self).wf(),
            final(self)@.secret == old(self)@.secret,
            final(self)@.public_key == old(self)@.public_key,
            final(self)@.ledger == old(self)@.ledger.union(
                Set::new(|s: Seq<u8>| s.len() == 32 && le_value(s) < num),
            ),
            final(self)@.ledger.finite(),
    {
        let mut i: u32 = 0;
        while i < num
            invariant
                0 <= i <= num,
                self.wf(),
                self@.secret == old(self)@.secret,
                self@.public_key == old(self)@.public_key,
                self@.ledger == old(self)@.ledger.union(
                    Set::new(|s: Seq<u8>| s.len() == 32 && le_value(s) < i),
                ),
            decreases num - i,
        {
            let b = crate::ristretto::scalar_from_u32(i);
            self.used_cards.insert(b);
            proof {
                let prev = Set::new(|s: Seq<u8>| s.len() == 32 && le_value(s) < i);
                let next = Set::new(|s: Seq<u8>| s.len() == 32 && le_value(s) < i + 1);
                assert(next =~= prev.insert(b@)) by {
                    assert forall|s: Seq<u8>| next.contains(s) implies prev.insert(b@).contains(s) by {
                        if le_value(s) == i {
                            crate::ristretto::lemma_le_value_injective(s, b@);
                        }
                    }
                }
                assert(self@.ledger =~= old(self)@.ledger.union(next));
            }
            i = i + 1;
        }
        proof {
            self.used_cards.lemma_finite();
        }
    }

    /// Whether `input` was redeemed.
    pub fn lookup_test(&self, input: [u8; 32]) -> (r: bool)
        requires
            self.wf(),
        ensures
            r == self@.ledger.contains(input@),
    {
        self.used_cards.contains(&input)
    }
}

/// What a card holds, as values.
pub struct CardView {
    pub secret: Seq<u8>,
    pub representative: Seq<u8>,
    pub mask: nat,
    pub count: nat,
}

/// A client's card: its secret identity, its current blinded
/// representative, the mask that blinds it, and how often it was punched.
pub struct PunchCard {
    card_secret: [u8; 32],
    punch_card: CompressedRistretto,
    last_mask: [u8; 32],
    count: u32,
}

/// The card after an accepted punch to `after`: unmasked by the old mask,
/// blinded again by `new_mask`, counted once more.
pub open spec fn remasked(before: CardView, after: Seq<u8>, new_mask: nat) -> CardView {
    CardView {
        secret: before.secret,
        representative: ristretto_mul(ristretto_mul(after, scalar_inverse(before.mask)), new_mask),
        mask: new_mask,
        count: before.count + 1,
    }
}

/// How checking a punch changes a card, with `new_mask` as the fresh mask:
/// undecodable input is an error and changes nothing; otherwise the punch
/// is accepted exactly when the proof is, and only then is the card
/// remasked. The representative returned is the card's current one.
pub open spec fn remask_outcome(
    before: CardView,
    card: Seq<u8>,
    y: Seq<u8>,
    proof: Proof,
    new_mask: nat,
    after: CardView,
    r: Result<(CompressedRistretto, bool), PunchError>,
) -> bool {
    &&& r is Err <==> !proof_decodes(y, card, proof)
    &&& r is Err ==> after == before
    &&& r matches Ok((shown, accepted)) ==> {
        &&& accepted == proof_accepts(y, before.representative, card, proof)
        &&& after == if accepted { remasked(before, card, new_mask) } else { before }
        &&& shown.0@ == after.representative
    }
}

impl View for PunchCard {
    type V = CardView;

    closed spec fn view(&self) -> CardView {
        CardView {
            secret: self.card_secret@,
            representative: self.punch_card.0@,
            mask: scalar_of(self.last_mask),
            count: self.count as nat,
        }
    }
}

impl PunchCard {
    /// The representative is a point and the mask can be inverted.
    pub closed spec fn wf(&self) -> bool {
        &&& ristretto_decodes(self.punch_card.0@)
        &&& scalar_of(self.last_mask) != 0
    }

    /// A new card with a random secret and mask; returns its representative
    /// too, already masked.
    pub fn card_setup() -> (r: (CompressedRistretto, PunchCard))
        ensures
            r.1.wf(),
            0 < r.1@.mask < group_order(),
            r.1@.representative == ristretto_mul(ristretto_hash(r.1@.secret), r.1@.mask),
            r.1@.secret.len() == 32,
            r.1@.count == 0,
            r.0.0@ == r.1@.representative,
    {
        let card_secret = random_bytes();
        let mask = fresh_mask();
        Self::card_from_parts(card_secret, mask)
    }

    /// A new card with the secret `card_secret` and the mask `mask`:
    /// its representative is `H(card_secret)^mask`.
    pub fn card_from_parts(card_secret: [u8; 32], mask: [u8; 32]) -> (r: (CompressedRistretto, PunchCard))
        requires
            scalar_of(mask) != 0,
        ensures
            r.1.wf(),
            0 < r.1@.mask < group_order(),
            r.1@ == (CardView {
                secret: card_secret@,
                representative: ristretto_mul(ristretto_hash(card_secret@), scalar_of(mask)),
                mask: scalar_of(mask),
                count: 0,
            }),
            r.0.0@ == r.1@.representative,
    {
        let base = hash_to_point(&card_secret);
        let punch_card = match point_mul(&base, &mask) {
            Some(p) => p,
            None => base,
        };
        (punch_card, PunchCard { card_secret, punch_card, last_mask: mask, count: 0 })
    }

    /// Checks the server's proof for a punch to `card`; if it holds,
    /// unmasks the punched card, masks it again with a fresh random mask and
    /// counts the punch. Returns the card's representative and whether the
    /// punch was accepted.
    pub fn verify_remask(&mut self, card: CompressedRistretto, pub_secret: CompressedRistretto, proof: Proof)
        -> (r: Result<(CompressedRistretto, bool), PunchError>)
        requires
            old(self).wf(),
            old(self)@.count < u32::MAX,
        ensures
            final(self).wf(),
            exists|m: nat| 0 < m < group_order()
                && #[trigger] remask_outcome(old(self)@, card.0@, pub_secret.0@, proof, m, final(self)@, r),
    {
        let mask = fresh_mask();
        let r = self.verify_remask_with_mask(card, pub_secret, proof, mask);
        proof {
            lemma_small_mod(le_value(mask@), group_order());
            assert(remask_outcome(old(self)@, card.0@, pub_secret.0@, proof, scalar_of(mask), self@, r));
        }
        r
    }

    /// As `verify_remask`, with `new_mask` as the fresh mask.
    pub fn verify_remask_with_mask(
        &mut self,
        card: CompressedRistretto,
        pub_secret: CompressedRistretto,
        proof: Proof,
        new_mask: [u8; 32],
    ) -> (r: Result<(CompressedRistretto, bool), PunchError>)
        requires
            old(self).wf(),
            old(self)@.count < u32::MAX,
            scalar_of(new_mask) != 0,
        ensures
            final(self).wf(),
            remask_outcome(old(self)@, card.0@, pub_secret.0@, proof, scalar_of(new_mask), final(self)@, r),
    {
        let chal = compute_challenge(&pub_secret, &self.punch_card, &card, &proof.v_t, &proof.w_t);
        let gbz = base_mul(&proof.beta_z);
        let yc = match point_mul(&pub_secret, &chal) {
            Some(p) => p,
            None => return Err(PunchError::MalformedEncoding),
        };
        let vtvc = match point_add(&proof.v_t, &yc) {
            Some(p) => p,
            None => return Err(PunchError::MalformedEncoding),
        };
        let ubz = match point_mul(&self.punch_card, &proof.beta_z) {
            Some(p) => p,
            None => return Err(PunchError::MalformedEncoding),
        };
        let cc = match point_mul(&card, &chal) {
            Some(p) => p,
            None => return Err(PunchError::MalformedEncoding),
        };
        let wtwc = match point_add(&proof.w_t, &cc) {
            Some(p) => p,
            None => return Err(PunchError::MalformedEncoding),
        };
        let accepted = bytes_equal(gbz.0.as_slice(), vtvc.0.as_slice())
            && bytes_equal(ubz.0.as_slice(), wtwc.0.as_slice());
        if accepted {
            let inverse = scalar_invert(&self.last_mask);
            proof {
                lemma_small_mod(le_value(inverse@), group_order());
                crate::ristretto::lemma_inverse_unique(le_value(inverse@), scalar_of(self.last_mask));
            }
            let unmasked = match point_mul(&card, &inverse) {
                Some(p) => p,
                None => return Err(PunchError::MalformedEncoding),
            };
            let remasked = match point_mul(&unmasked, &new_mask) {
                Some(p) => p,
                None => return Err(PunchError::MalformedEncoding),
            };
            self.last_mask = new_mask;
            self.punch_card = remasked;
            self.count = self.count + 1;
        }
        Ok((self.punch_card, accepted))
    }

    /// Removes the last mask and hands over what redemption needs: the
    /// card's secret and `H(secret)^(x^count)`. The card must not be
    /// punched afterwards.
    pub fn unmask_redeem(&mut self) -> (r: ([u8; 32], CompressedRistretto))
        requires
            old(self).wf(),
        ensures
            final(self).wf(),
            r.0@ == old(self)@.secret,
            r.1.0@ == ristretto_mul(old(self)@.representative, scalar_inverse(old(self)@.mask)),
            final(self)@ == (CardView { representative: r.1.0@, ..old(self)@ }),
    {
        let inverse = scalar_invert(&self.last_mask);
        proof {
            lemma_small_mod(le_value(inverse@), group_order());
            crate::ristretto::lemma_inverse_unique(le_value(inverse@), scalar_of(self.last_mask));
        }
        let unmasked = match point_mul(&self.punch_card, &inverse) {
            Some(p) => p,
            None => self.punch_card,
        };
        self.punch_card = unmasked;
        (self.card_secret, self.punch_card)
    }

    /// How often the card was punched.
    pub fn get_count(&self) -> (r: u32)
        ensures
            r == self@.count,
    {
        self.count
    }

    /// The representative blinded once more by the current mask.
    pub fn exp_test(&self) -> (r: CompressedRistretto)
        requires
            self.wf(),
        ensures
            r.0@ == ristretto_mul(self@.representative, self@.mask),
    {
        match point_mul(&self.punch_card, &self.last_mask) {
            Some(p) => p,
            None => self.punch_card,
        }
    }
}

} // verus!
