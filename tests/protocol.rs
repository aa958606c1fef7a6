use curve25519_dalek::ristretto::CompressedRistretto;
use punchcard::bytes::bytes_equal;
use punchcard::ledger::Ledger;
use punchcard::{scalar_exponentiate, Proof, PunchCard, PunchError, ServerData};

fn le_bytes(v: u64) -> [u8; 32] {
    let mut b = [0u8; 32];
    b[..8].copy_from_slice(&v.to_le_bytes());
    b
}

/// The group order minus one, little-endian.
fn order_minus_one() -> [u8; 32] {
    let mut b = [
        0xed, 0xd3, 0xf5, 0x5c, 0x1a, 0x63, 0x12, 0x58, 0xd6, 0x9c, 0xf7, 0xa2, 0xde, 0xf9, 0xde,
        0x14, 0, 0, 0, 0, 0, 0, 0, 0, 0, 0, 0, 0, 0, 0, 0, 0x10,
    ];
    b[0] -= 1;
    b
}

fn punch_rounds(server: &ServerData, client: &mut PunchCard, mut current: CompressedRistretto, n: u32) -> CompressedRistretto {
    let public = server.public_key();
    for i in 0..n {
        let (new_card, proof) = server.server_punch(current).unwrap();
        let (next, accepted) = client.verify_remask(new_card, public, proof).unwrap();
        assert!(accepted);
        assert_eq!(client.get_count(), i + 1);
        current = next;
    }
    current
}

#[test]
fn ten_punches_redeem_exactly_once() {
    let (public, mut server) = ServerData::server_setup();
    assert_eq!(public, server.public_key());
    let (card, mut client) = PunchCard::card_setup();
    assert_eq!(client.get_count(), 0);
    punch_rounds(&server, &mut client, card, 10);
    assert_eq!(client.get_count(), 10);
    let (secret, final_card) = client.unmask_redeem();
    assert!(server.server_verify(final_card, secret, 10));
    assert_eq!(server.count_cards(), 1);
    assert!(server.lookup_test(secret));
    assert!(!server.server_verify(final_card, secret, 10));
    assert_eq!(server.count_cards(), 1);
}

#[test]
fn wrong_punch_count_is_rejected_without_ledger_change() {
    let (_, mut server) = ServerData::server_setup();
    let (card, mut client) = PunchCard::card_setup();
    punch_rounds(&server, &mut client, card, 3);
    let (secret, final_card) = client.unmask_redeem();
    assert!(!server.server_verify(final_card, secret, 2));
    assert!(!server.server_verify(final_card, secret, 4));
    assert_eq!(server.count_cards(), 0);
    assert!(server.server_verify(final_card, secret, 3));
}

#[test]
fn card_of_another_server_is_rejected() {
    let (_, server_a) = ServerData::server_setup();
    let (_, mut server_b) = ServerData::server_setup();
    let (card, mut client) = PunchCard::card_setup();
    punch_rounds(&server_a, &mut client, card, 2);
    let (secret, final_card) = client.unmask_redeem();
    assert!(!server_b.server_verify(final_card, secret, 2));
}

#[test]
fn corrupted_proof_leaves_card_unchanged_then_retry_succeeds() {
    let (public, server) = ServerData::server_setup();
    let (card, mut client) = PunchCard::card_setup();
    let (new_card, proof) = server.server_punch(card).unwrap();
    let mut bytes = proof.to_bytes();
    bytes[70] ^= 1;
    let bad = Proof::from_bytes(&bytes).unwrap();
    let (shown, accepted) = client.verify_remask(new_card, public, bad).unwrap();
    assert!(!accepted);
    assert_eq!(shown, card);
    assert_eq!(client.get_count(), 0);
    let (shown, accepted) = client.verify_remask(new_card, public, proof).unwrap();
    assert!(accepted);
    assert_ne!(shown, card);
    assert_eq!(client.get_count(), 1);
}

#[test]
fn proof_for_another_representative_is_rejected() {
    let (public, server) = ServerData::server_setup();
    let (card_a, _client_a) = PunchCard::card_setup();
    let (_card_b, mut client_b) = PunchCard::card_setup();
    let (new_a, proof_a) = server.server_punch(card_a).unwrap();
    let (_, accepted) = client_b.verify_remask(new_a, public, proof_a).unwrap();
    assert!(!accepted);
    assert_eq!(client_b.get_count(), 0);
}

#[test]
fn proof_with_wrong_exponent_is_rejected() {
    let (public, server) = ServerData::server_setup();
    let (_, other) = ServerData::server_setup();
    let (card, mut client) = PunchCard::card_setup();
    let (new_card, proof) = other.server_punch(card).unwrap();
    let (_, accepted) = client.verify_remask(new_card, public, proof).unwrap();
    assert!(!accepted);
    let (new_card, proof) = server.server_punch(card).unwrap();
    let (_, accepted) = client.verify_remask(new_card, public, proof).unwrap();
    assert!(accepted);
}

#[test]
fn undecodable_points_are_malformed() {
    let (public, server) = ServerData::server_setup();
    let bad = CompressedRistretto([0xff; 32]);
    assert_eq!(server.server_punch(bad).err(), Some(PunchError::MalformedEncoding));
    let (card, mut client) = PunchCard::card_setup();
    let (new_card, proof) = server.server_punch(card).unwrap();
    let mut bytes = proof.to_bytes();
    bytes[..32].copy_from_slice(&[0xff; 32]);
    let bad_proof = Proof::from_bytes(&bytes).unwrap();
    assert_eq!(client.verify_remask(new_card, public, bad_proof).err(), Some(PunchError::MalformedEncoding));
    assert_eq!(client.get_count(), 0);
    assert_eq!(client.verify_remask(bad, public, proof).err(), Some(PunchError::MalformedEncoding));
    assert_eq!(client.get_count(), 0);
}

#[test]
fn fixed_nonce_and_mask_give_fixed_results() {
    let (public1, server1) = ServerData::server_from_secret(le_bytes(7));
    let (public2, server2) = ServerData::server_from_secret(le_bytes(7));
    assert_eq!(public1, public2);
    assert_ne!(public1.0, le_bytes(7));
    let (card1, mut client1) = PunchCard::card_from_parts([9u8; 32], le_bytes(5));
    let (card2, _client2) = PunchCard::card_from_parts([9u8; 32], le_bytes(5));
    let (card3, _client3) = PunchCard::card_from_parts([9u8; 32], le_bytes(6));
    assert_eq!(card1, card2);
    assert_ne!(card1, card3);
    let (new1, proof1) = server1.punch_with_nonce(card1, le_bytes(11)).unwrap();
    let (new2, proof2) = server2.punch_with_nonce(card2, le_bytes(11)).unwrap();
    assert_eq!(new1, new2);
    assert_ne!(new1, card1);
    assert_eq!(proof1.to_bytes(), proof2.to_bytes());
    let (shown, accepted) = client1.verify_remask_with_mask(new1, public1, proof1, le_bytes(3)).unwrap();
    assert!(accepted);
    assert_ne!(shown, new1);
}

#[test]
fn two_cards_show_different_representatives() {
    let (public, server) = ServerData::server_setup();
    let (card_a, mut client_a) = PunchCard::card_setup();
    let (card_b, mut client_b) = PunchCard::card_setup();
    assert_ne!(card_a, card_b);
    let a = punch_rounds(&server, &mut client_a, card_a, 1);
    let b = punch_rounds(&server, &mut client_b, card_b, 1);
    assert_ne!(a, b);
    let _ = public;
}

#[test]
fn exp_test_blinds_the_representative_again() {
    let (card, client) = PunchCard::card_from_parts([4u8; 32], le_bytes(1));
    assert_eq!(client.exp_test(), card);
    let (card, client) = PunchCard::card_from_parts([4u8; 32], le_bytes(2));
    assert_ne!(client.exp_test(), card);
}

#[test]
fn exponentiation_small_values() {
    assert_eq!(scalar_exponentiate(le_bytes(3), 5), le_bytes(243));
    assert_eq!(scalar_exponentiate(le_bytes(2), 10), le_bytes(1024));
    assert_eq!(scalar_exponentiate(le_bytes(9), 1), le_bytes(9));
    assert_eq!(scalar_exponentiate(le_bytes(1), 1000), le_bytes(1));
    assert_eq!(scalar_exponentiate(le_bytes(0), 3), le_bytes(0));
}

#[test]
fn exponentiation_reduces_modulo_order() {
    let minus_one = order_minus_one();
    assert_eq!(scalar_exponentiate(minus_one, 2), le_bytes(1));
    assert_eq!(scalar_exponentiate(minus_one, 3), minus_one);
    assert_eq!(scalar_exponentiate(le_bytes(1 << 32), 2), {
        let mut b = [0u8; 32];
        b[8] = 1;
        b
    });
}

#[test]
fn exponentiation_largest_exponent() {
    let minus_one = order_minus_one();
    assert_eq!(scalar_exponentiate(minus_one, u32::MAX), minus_one);
    assert_eq!(scalar_exponentiate(le_bytes(1), u32::MAX), le_bytes(1));
    assert_eq!(scalar_exponentiate(le_bytes(2), 64), {
        let mut b = [0u8; 32];
        b[8] = 1;
        b
    });
}

#[test]
fn proof_wire_form_round_trips() {
    let (_, server) = ServerData::server_setup();
    let (card, _) = PunchCard::card_setup();
    let (_, proof) = server.server_punch(card).unwrap();
    let bytes = proof.to_bytes();
    assert_eq!(bytes.len(), 96);
    let back = Proof::from_bytes(&bytes).unwrap();
    assert_eq!(back.to_bytes(), bytes);
    assert_eq!(&bytes[..32], &proof.v_t.0);
    assert!(Proof::from_bytes(&bytes[..95]).is_none());
    assert!(Proof::from_bytes(&[0u8; 97]).is_none());
}

#[test]
fn cheat_setup_db_preloads_ledger() {
    let (_, mut server) = ServerData::server_setup();
    server.cheat_setup_db(5);
    assert_eq!(server.count_cards(), 5);
    assert!(server.lookup_test(le_bytes(0)));
    assert!(server.lookup_test(le_bytes(4)));
    assert!(!server.lookup_test(le_bytes(5)));
    server.cheat_setup_db(3);
    assert_eq!(server.count_cards(), 5);
}

#[test]
fn ledger_inserts_each_secret_once() {
    let mut ledger = Ledger::new();
    assert_eq!(ledger.len(), 0);
    assert!(ledger.insert([1u8; 32]));
    assert!(!ledger.insert([1u8; 32]));
    assert!(ledger.insert([2u8; 32]));
    assert_eq!(ledger.len(), 2);
    assert!(ledger.contains(&[2u8; 32]));
    assert!(!ledger.contains(&[3u8; 32]));
}

#[test]
fn bytes_equal_compares_contents() {
    assert!(bytes_equal(&[1, 2, 3], &[1, 2, 3]));
    assert!(!bytes_equal(&[1, 2, 3], &[1, 2, 4]));
    assert!(!bytes_equal(&[1, 2], &[1, 2, 3]));
    assert!(bytes_equal(&[], &[]));
}
