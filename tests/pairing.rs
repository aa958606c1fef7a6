use punchcard::{PairPunchCard, PairServerData, PunchError};

fn punch_pair(server: &PairServerData, client: &mut PairPunchCard, mut c1: Vec<u8>, mut c2: Vec<u8>, n: u32) {
    for i in 0..n {
        let (n1, n2, p1, p2) = server.pair_server_punch(&mut c1, &mut c2).unwrap();
        let (next1, next2, accepted) = client
            .verify_remask(n1, n2, &server.pub_secret_g1, &server.pub_secret_g2, p1, p2)
            .unwrap();
        assert!(accepted);
        assert_eq!(client.pair_get_count(), i + 1);
        c1 = next1;
        c2 = next2;
    }
}

#[test]
fn pairing_merge_of_two_cards_redeems_combined_count() {
    let mut server = PairServerData::pair_server_setup();
    let (a1, a2, mut card_a) = PairPunchCard::card_setup();
    let (b1, b2, mut card_b) = PairPunchCard::card_setup();
    punch_pair(&server, &mut card_a, a1, a2, 5);
    punch_pair(&server, &mut card_b, b1, b2, 5);
    let (secret_a, secret_b, mut merged) = card_a.pair_unmask_redeem(card_b);
    assert_ne!(secret_a, secret_b);
    assert_eq!(server.pair_server_verify(&mut merged, secret_b, secret_a, 10), Ok(false));
    assert_eq!(server.pair_server_verify(&mut merged, secret_a, secret_b, 9), Ok(false));
    assert_eq!(server.pair_count_cards(), 0);
    assert_eq!(server.pair_server_verify(&mut merged, secret_a, secret_b, 10), Ok(true));
    assert_eq!(server.pair_count_cards(), 2);
    assert_eq!(server.pair_server_verify(&mut merged, secret_a, secret_b, 10), Ok(false));
    assert_eq!(server.pair_count_cards(), 2);
}

#[test]
fn pairing_swapped_halves_fail() {
    let mut server = PairServerData::pair_server_setup();
    let (a1, a2, mut card_a) = PairPunchCard::card_setup();
    let (b1, b2, mut card_b) = PairPunchCard::card_setup();
    punch_pair(&server, &mut card_a, a1, a2, 1);
    punch_pair(&server, &mut card_b, b1, b2, 1);
    let (secret_b, secret_a, mut merged) = card_b.pair_unmask_redeem(card_a);
    assert_eq!(server.pair_server_verify(&mut merged, secret_a, secret_b, 2), Ok(false));
    assert_eq!(server.pair_server_verify(&mut merged, secret_b, secret_a, 2), Ok(true));
}

#[test]
fn pairing_corrupted_proof_leaves_card_unchanged() {
    let server = PairServerData::pair_server_setup();
    let (mut c1, mut c2, mut card) = PairPunchCard::card_setup();
    let (n1, n2, p1, mut p2) = server.pair_server_punch(&mut c1, &mut c2).unwrap();
    p2.beta_z[31] ^= 1;
    let (s1, s2, accepted) = card
        .verify_remask(n1, n2, &server.pub_secret_g1, &server.pub_secret_g2, p1, p2)
        .unwrap();
    assert!(!accepted);
    assert_eq!(s1, c1);
    assert_eq!(s2, c2);
    assert_eq!(card.pair_get_count(), 0);
}

#[test]
fn pairing_malformed_inputs_are_errors() {
    let mut server = PairServerData::pair_server_setup();
    let mut bad1 = vec![0u8; 48];
    let mut bad2 = vec![0u8; 96];
    assert_eq!(server.pair_server_punch(&mut bad1, &mut bad2).err(), Some(PunchError::MalformedEncoding));
    let mut garbage = vec![0xffu8; 576];
    assert_eq!(server.pair_server_verify(&mut garbage, [1u8; 32], [2u8; 32], 1), Err(PunchError::MalformedEncoding));
    let (mut c1, mut c2, mut card) = PairPunchCard::card_setup();
    let (n1, n2, mut p1, p2) = server.pair_server_punch(&mut c1, &mut c2).unwrap();
    p1.beta_z.truncate(10);
    let r = card.verify_remask(n1, n2, &server.pub_secret_g1, &server.pub_secret_g2, p1, p2);
    assert_eq!(r.err(), Some(PunchError::MalformedEncoding));
    assert_eq!(card.pair_get_count(), 0);
}

#[test]
fn pairing_cheat_setup_db_preloads_ledger() {
    let mut server = PairServerData::pair_server_setup();
    server.pair_cheat_setup_db(4);
    assert_eq!(server.pair_count_cards(), 4);
}

fn fr_bytes(v: u8) -> Vec<u8> {
    let mut b = vec![0u8; 32];
    b[31] = v;
    b
}

#[test]
fn pairing_same_secret_on_both_sides_is_rejected() {
    let mut server = PairServerData::pair_server_setup();
    let (a1, a2, mut card_a) = PairPunchCard::card_from_parts([7u8; 32], fr_bytes(3), fr_bytes(5));
    let (b1, b2, mut card_b) = PairPunchCard::card_from_parts([7u8; 32], fr_bytes(2), fr_bytes(9));
    punch_pair(&server, &mut card_a, a1, a2, 1);
    punch_pair(&server, &mut card_b, b1, b2, 1);
    let (s1, s2, mut merged) = card_a.pair_unmask_redeem(card_b);
    assert_eq!(s1, s2);
    assert_eq!(server.pair_server_verify(&mut merged, s1, s2, 2), Ok(false));
    assert_eq!(server.pair_count_cards(), 0);
}

#[test]
fn pairing_redeemed_secret_blocks_the_other_secret_too() {
    let mut server = PairServerData::pair_server_setup();
    let (a1, a2, mut card_a) = PairPunchCard::card_from_parts([1u8; 32], fr_bytes(3), fr_bytes(4));
    let (b1, b2, card_b) = PairPunchCard::card_from_parts([2u8; 32], fr_bytes(5), fr_bytes(6));
    punch_pair(&server, &mut card_a, a1, a2, 1);
    let (sa, sb, mut merged) = card_a.pair_unmask_redeem(card_b);
    assert_eq!(server.pair_server_verify(&mut merged, sa, sb, 1), Ok(true));
    assert_eq!(server.pair_count_cards(), 2);
    let (c1, c2, mut card_c) = PairPunchCard::card_from_parts([1u8; 32], fr_bytes(7), fr_bytes(8));
    let (_, _, card_d) = PairPunchCard::card_from_parts([3u8; 32], fr_bytes(9), fr_bytes(10));
    punch_pair(&server, &mut card_c, c1, c2, 1);
    let (sc, sd, mut merged) = card_c.pair_unmask_redeem(card_d);
    assert_eq!(server.pair_server_verify(&mut merged, sc, sd, 1), Ok(false));
    assert_eq!(server.pair_count_cards(), 2);
}

#[test]
fn pairing_fixed_masks_and_nonces_give_fixed_results() {
    let server1 = PairServerData::pair_server_from_secret(fr_bytes(11));
    let server2 = PairServerData::pair_server_from_secret(fr_bytes(11));
    assert_eq!(server1.pub_secret_g1, server2.pub_secret_g1);
    assert_eq!(server1.pub_secret_g1.len(), 48);
    assert_eq!(server1.pub_secret_g2.len(), 96);
    let (c1, c2, _) = PairPunchCard::card_from_parts([5u8; 32], fr_bytes(2), fr_bytes(3));
    let (d1, d2, _) = PairPunchCard::card_from_parts([5u8; 32], fr_bytes(2), fr_bytes(4));
    assert_eq!(c1, d1);
    assert_ne!(c2, d2);
    let (n1, n2, p1, p2) = server1.pair_server_punch_with_nonces(&c1, &c2, &fr_bytes(13), &fr_bytes(17)).unwrap();
    let (m1, m2, q1, q2) = server2.pair_server_punch_with_nonces(&c1, &c2, &fr_bytes(13), &fr_bytes(17)).unwrap();
    assert_eq!(n1, m1);
    assert_eq!(n2, m2);
    assert_ne!(n1, c1);
    assert_eq!(p1.beta_z, q1.beta_z);
    assert_eq!(p2.v_t, q2.v_t);
    assert_eq!(p1.beta_z.len(), 32);
}
