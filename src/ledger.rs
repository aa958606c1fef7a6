//! The set of card secrets that were already redeemed.

use vstd::prelude::*;
use std::collections::HashSet;
use crate::bytes::bytes_equal;

verus! {

broadcast use vstd::std_specs::hash::group_hash_axioms;

/// The redeemed card secrets, each held once, in the order of redemption,
/// with the set of their first eight bytes to turn most lookups of a new
/// secret away without a scan.
pub struct Ledger {
    entries: Vec<[u8; 32]>,
    prefixes: HashSet<u64>,
}

/// The first eight bytes of a secret, as an integer.
pub open spec fn prefix_key(s: Seq<u8>) -> u64 {
    (s[0] as u64) | ((s[1] as u64) << 8u64) | ((s[2] as u64) << 16u64) | ((s[3] as u64) << 24u64)
        | ((s[4] as u64) << 32u64) | ((s[5] as u64) << 40u64) | ((s[6] as u64) << 48u64)
        | ((s[7] as u64) << 56u64)
}

/// The first eight bytes of `secret`, as an integer.
fn prefix_of(secret: &[u8; 32]) -> (r: u64)
    ensures
        r == prefix_key(secret@),
{
    (secret[0] as u64) | ((secret[1] as u64) << 8u64) | ((secret[2] as u64) << 16u64)
        | ((secret[3] as u64) << 24u64) | ((secret[4] as u64) << 32u64) | ((secret[5] as u64)
        << 40u64) | ((secret[6] as u64) << 48u64) | ((secret[7] as u64) << 56u64)
}

/// The byte strings that a list of secrets holds.
pub open spec fn secrets_of(entries: Seq<[u8; 32]>) -> Seq<Seq<u8>> {
    entries.map_values(|e: [u8; 32]| e@)
}

impl View for Ledger {
    type V = Set<Seq<u8>>;

    closed spec fn view(&self) -> Set<Seq<u8>> {
        secrets_of(self.entries@).to_set()
    }
}

impl Ledger {
    /// No secret is held twice, and the first bytes of each are known.
    pub closed spec fn wf(&self) -> bool {
        &&& secrets_of(self.entries@).no_duplicates()
        &&& forall|i: int| 0 <= i < self.entries@.len()
            ==> #[trigger] self.prefixes@.contains(prefix_key(self.entries@[i]@))
    }

    /// A ledger holds finitely many secrets.
    pub proof fn lemma_finite(&self)
        ensures
            self@.finite(),
    {
        vstd::seq_lib::seq_to_set_is_finite(secrets_of(self.entries@));
    }

    /// An empty ledger.
    pub fn new() -> (r: Ledger)
        ensures
            r.wf(),
            r@ == Set::<Seq<u8>>::empty(),
    {
        let r = Ledger { entries: Vec::new(), prefixes: HashSet::new() };
        assert(secrets_of(r.entries@).to_set() =~= Set::<Seq<u8>>::empty()) by {
            assert(secrets_of(r.entries@) =~= Seq::<Seq<u8>>::empty());
        }
        r
    }

    /// Whether `secret` was redeemed.
    pub fn contains(&self, secret: &[u8; 32]) -> (r: bool)
        requires
            self.wf(),
        ensures
            r == self@.contains(secret@),
    {
        let key = prefix_of(secret);
        if !self.prefixes.contains(&key) {
            proof {
                if self@.contains(secret@) {
                    let k = secrets_of(self.entries@).index_of(secret@);
                    assert(self.entries@[k]@ == secret@);
                    assert(self.prefixes@.contains(prefix_key(self.entries@[k]@)));
                }
            }
            return false;
        }
        let mut i: usize = 0;
        while i < self.entries.len()
            invariant
                0 <= i <= self.entries@.len(),
                forall|j: int| 0 <= j < i ==> self.entries@[j]@ != secret@,
            decreases self.entries@.len() - i,
        {
            if bytes_equal(self.entries[i].as_slice(), secret.as_slice()) {
                assert(secrets_of(self.entries@)[i as int] == secret@);
                assert(self@.contains(secret@));
                return true;
            }
            i = i + 1;
        }
        proof {
            if self@.contains(secret@) {
                let k = secrets_of(self.entries@).index_of(secret@);
                assert(self.entries@[k]@ == secret@);
            }
        }
        false
    }

    /// Adds `secret` unless it is already there; true when it was added.
    pub fn insert(&mut self, secret: [u8; 32]) -> (r: bool)
        requires
            old(self).wf(),
        ensures
            final(self).wf(),
            r == !old(self)@.contains(secret@),
            final(self)@ == old(self)@.insert(secret@),
            final(self)@.finite(),
            final(self)@.len() == old(self)@.len() + if r { 1int } else { 0int },
    {
        proof {
            self.lemma_finite();
        }
        if self.contains(&secret) {
            assert(self@.insert(secret@) =~= self@);
            return false;
        }
        let ghost old_view = self@;
        let ghost before = secrets_of(self.entries@);
        let key = prefix_of(&secret);
        self.prefixes.insert(key);
        self.entries.push(secret);
        assert(secrets_of(self.entries@) =~= before.push(secret@));
        proof {
            before.lemma_push_to_set_commute(secret@);
            assert(!before.contains(secret@));
            assert(before.push(secret@).no_duplicates()) by {
                assert forall|i: int, j: int|
                    0 <= i < before.push(secret@).len() && 0 <= j < before.push(secret@).len()
                        && i != j implies before.push(secret@)[i] != before.push(secret@)[j] by {
                    if i < before.len() && j < before.len() {
                    } else if i < before.len() {
                        assert(before.contains(before[i]));
                    } else if j < before.len() {
                        assert(before.contains(before[j]));
                    }
                }
            }
        }
        proof {
            self.lemma_finite();
            assert(self@ == old_view.insert(secret@));
        }
        true
    }

    /// The number of redeemed secrets.
    pub fn len(&self) -> (r: usize)
        requires
            self.wf(),
        ensures
            r == self@.len(),
    {
        proof {
            secrets_of(self.entries@).unique_seq_to_set();
        }
        self.entries.len()
    }
}

} // verus!
