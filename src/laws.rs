//! Properties that hold across several calls of the protocol's operations,
//! stated over the relations that those operations' contracts give.

use vstd::prelude::*;
use crate::crypto::{
    expected_representative, proof_accepts, proof_decodes, remask_outcome, remasked, CardView,
    Proof, ServerView, verify_outcome,
};
use crate::crypto_pairing::{pair_verify_outcome, PairServerView};
use crate::error::PunchError;
use curve25519_dalek::ristretto::CompressedRistretto;

verus! {

/// A card that shows the representative the server expects is redeemed
/// exactly when its secret is not in the ledger yet, and its secret is in
/// the ledger afterwards.
pub proof fn lemma_matching_card_redeems_when_new(
    before: ServerView,
    card: Seq<u8>,
    secret: Seq<u8>,
    n: nat,
    after: ServerView,
    r: bool,
)
    requires
        verify_outcome(before, card, secret, n, after, r),
        card == expected_representative(before.secret, secret, n),
    ensures
        r == !before.ledger.contains(secret),
        after.ledger.contains(secret),
{
}

/// Redeeming the same secret and representative twice succeeds at most
/// once: the second redemption fails and leaves the ledger, and so its
/// size, as the first one left it.
pub proof fn lemma_redeem_twice(
    s0: ServerView,
    card: Seq<u8>,
    secret: Seq<u8>,
    n: nat,
    s1: ServerView,
    r1: bool,
    s2: ServerView,
    r2: bool,
)
    requires
        verify_outcome(s0, card, secret, n, s1, r1),
        verify_outcome(s1, card, secret, n, s2, r2),
    ensures
        !r2,
        s2.ledger == s1.ledger,
        s2.ledger.len() == s1.ledger.len(),
        r1 == (card == expected_representative(s0.secret, secret, n) && !s0.ledger.contains(secret)),
{
    if card == expected_representative(s0.secret, secret, n) {
        assert(s1.ledger.contains(secret));
        assert(s2.ledger =~= s1.ledger);
    }
}

/// A punch whose proof does not check leaves the card as it was, count and
/// representative included; a proof that checks, offered next for the same
/// punch, is then accepted and counts the punch once.
pub proof fn lemma_rejected_punch_can_be_retried(
    c0: CardView,
    card: Seq<u8>,
    y: Seq<u8>,
    bad: Proof,
    good: Proof,
    m1: nat,
    m2: nat,
    c1: CardView,
    r1: Result<(CompressedRistretto, bool), PunchError>,
    c2: CardView,
    r2: Result<(CompressedRistretto, bool), PunchError>,
)
    requires
        !(proof_decodes(y, card, bad) && proof_accepts(y, c0.representative, card, bad)),
        remask_outcome(c0, card, y, bad, m1, c1, r1),
        proof_decodes(y, card, good),
        proof_accepts(y, c0.representative, card, good),
        remask_outcome(c1, card, y, good, m2, c2, r2),
    ensures
        !(r1 matches Ok((_, true))),
        c1 == c0,
        c1.count == c0.count,
        c1.representative == c0.representative,
        r2 matches Ok((_, true)),
        c2 == remasked(c0, card, m2),
        c2.count == c0.count + 1,
{
}

/// Redeeming the same two merged cards twice succeeds at most once: the
/// second redemption does not succeed and leaves the ledger, and so its
/// size, as the first one left it.
pub proof fn lemma_pair_redeem_twice(
    s0: PairServerView,
    card: Seq<u8>,
    secret1: Seq<u8>,
    secret2: Seq<u8>,
    n: nat,
    s1: PairServerView,
    r1: Result<bool, PunchError>,
    s2: PairServerView,
    r2: Result<bool, PunchError>,
)
    requires
        pair_verify_outcome(s0, card, secret1, secret2, n, s1, r1),
        pair_verify_outcome(s1, card, secret1, secret2, n, s2, r2),
    ensures
        !(r2 matches Ok(true)),
        s2.ledger == s1.ledger,
        s2.ledger.len() == s1.ledger.len(),
{
    if r1 matches Ok(true) {
        assert(s1.ledger.contains(secret1));
    }
}

} // verus!
