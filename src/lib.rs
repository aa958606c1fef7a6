//! An anonymous punch-card protocol: a server punches blinded cards with a
//! secret exponent and proves each punch with a Chaum-Pedersen proof; a card
//! is redeemed once, after exactly the expected number of punches. A second
//! variant over a pairing-friendly curve lets two cards be merged when they
//! are redeemed.

pub mod bls;
pub mod bytes;
pub mod crypto;
pub mod crypto_pairing;
pub mod error;
pub mod laws;
pub mod ledger;
pub mod ristretto;

pub use crate::crypto::{scalar_exponentiate, Proof, PunchCard, ServerData};
pub use crate::crypto_pairing::{PairProof, PairPunchCard, PairPunchCardPart, PairServerData};
pub use crate::error::PunchError;
