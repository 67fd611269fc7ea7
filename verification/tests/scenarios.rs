//! Concrete scenarios of the mode under the reference permutation: round
//! trips at and around both rate boundaries, determinism, and tamper
//! detection.
use mem_aead_mrs::blake2p::Blake2P;
use mem_aead_mrs::{Mrs, KEY_LENGTH, NONCE_LENGTH, TAG_LENGTH};

fn pattern_key() -> [u8; KEY_LENGTH] {
    let mut k = [0u8; KEY_LENGTH];
    for i in 0..KEY_LENGTH {
        k[i] = (255 & (i * 191 + 123)) as u8;
    }
    k
}

fn pattern_nonce() -> [u8; NONCE_LENGTH] {
    let mut n = [0u8; NONCE_LENGTH];
    for i in 0..NONCE_LENGTH {
        n[i] = (255 & (i * 181 + 123)) as u8;
    }
    n
}

fn pattern_aad(len: usize) -> Vec<u8> {
    (0..len).map(|i| (255 & (i * 193 + 123)) as u8).collect()
}

fn pattern_msg(len: usize) -> Vec<u8> {
    (0..len).map(|i| (255 & (i * 197 + 123)) as u8).collect()
}

fn encrypt_pattern(aad_len: usize, msg_len: usize) -> (Vec<u8>, [u8; TAG_LENGTH]) {
    let key = pattern_key();
    let nonce = pattern_nonce();
    let aad = pattern_aad(aad_len);
    let mut buf = pattern_msg(msg_len);
    let mut tag = [0u8; TAG_LENGTH];
    Mrs::<Blake2P>::new().encrypt(&key, &nonce, &aad, &mut buf, &mut tag);
    (buf, tag)
}

fn decrypt_pattern(
    aad_len: usize,
    c: &[u8],
    tag: &[u8; TAG_LENGTH],
) -> (bool, Vec<u8>) {
    let key = pattern_key();
    let nonce = pattern_nonce();
    let aad = pattern_aad(aad_len);
    let mut buf = c.to_vec();
    let ok = Mrs::<Blake2P>::new().decrypt(&key, &nonce, &aad, &mut buf, tag);
    (ok, buf)
}

fn round_trip(aad_len: usize, msg_len: usize) {
    let (c, tag) = encrypt_pattern(aad_len, msg_len);
    assert_eq!(c.len(), msg_len);
    assert_eq!(tag.len(), TAG_LENGTH);
    let (ok, p) = decrypt_pattern(aad_len, &c, &tag);
    assert!(ok, "aad {} msg {}", aad_len, msg_len);
    assert_eq!(p, pattern_msg(msg_len), "aad {} msg {}", aad_len, msg_len);
}

#[test]
fn all_empty_round_trip() {
    let (c, tag) = encrypt_pattern(0, 0);
    assert_eq!(c.len(), 0);
    assert_eq!(tag.len(), 32);
    let (ok, p) = decrypt_pattern(0, &c, &tag);
    assert!(ok);
    assert_eq!(p.len(), 0);
}

#[test]
fn single_byte_round_trip() {
    let (c, tag) = encrypt_pattern(0, 1);
    assert_eq!(c.len(), 1);
    let (ok, p) = decrypt_pattern(0, &c, &tag);
    assert!(ok);
    assert_eq!(p, vec![123u8]);
}

#[test]
fn one_full_block_each_round_trip() {
    // one full 128-byte absorption block of associated data and one full
    // 96-byte encryption block of message
    round_trip(96, 96);
    round_trip(128, 96);
}

#[test]
fn distinct_rates_round_trip() {
    // the absorption rate (128) differs from the encryption rate (96): a
    // 128-byte message spans one full encryption block plus a 32-byte tail
    round_trip(128, 128);
}

#[test]
fn eight_blocks_round_trip() {
    round_trip(0, 768);
}

#[test]
fn rate_boundary_ladder_round_trip() {
    let sizes = [0, 1, 95, 96, 97, 127, 128, 129, 191, 192];
    for &aad_len in sizes.iter() {
        for &msg_len in sizes.iter() {
            round_trip(aad_len, msg_len);
        }
    }
}

#[test]
fn empty_aad_and_empty_message_have_32_byte_tags() {
    for (aad_len, msg_len) in [(0, 64), (64, 0), (0, 0)] {
        let (c, tag) = encrypt_pattern(aad_len, msg_len);
        assert_eq!(c.len(), msg_len);
        assert_eq!(tag.len(), 32);
        let (ok, _) = decrypt_pattern(aad_len, &c, &tag);
        assert!(ok);
    }
}

#[test]
fn encrypt_is_deterministic() {
    let (c1, tag1) = encrypt_pattern(128, 128);
    let (c2, tag2) = encrypt_pattern(128, 128);
    assert_eq!(c1, c2);
    assert_eq!(tag1, tag2);
}

#[test]
fn flipped_tag_bit_fails() {
    let (c, mut tag) = encrypt_pattern(128, 128);
    tag[0] ^= 1;
    let (ok, _) = decrypt_pattern(128, &c, &tag);
    assert!(!ok);
}

#[test]
fn every_tag_bit_matters() {
    let (c, tag) = encrypt_pattern(32, 32);
    for bit in 0..8 * TAG_LENGTH {
        let mut bad = tag;
        bad[bit / 8] ^= 1 << (bit % 8);
        let (ok, _) = decrypt_pattern(32, &c, &bad);
        assert!(!ok, "bit {}", bit);
    }
}

#[test]
fn flipped_ciphertext_bit_fails() {
    let (mut c, tag) = encrypt_pattern(128, 128);
    c[17] ^= 0x40;
    let (ok, _) = decrypt_pattern(128, &c, &tag);
    assert!(!ok);
}

#[test]
fn flipped_aad_bit_fails() {
    let (c, tag) = encrypt_pattern(128, 128);
    let key = pattern_key();
    let nonce = pattern_nonce();
    let mut aad = pattern_aad(128);
    aad[5] ^= 0x80;
    let mut buf = c.clone();
    let ok = Mrs::<Blake2P>::new().decrypt(&key, &nonce, &aad, &mut buf, &tag);
    assert!(!ok);
}

#[test]
fn flipped_key_bit_fails() {
    let (c, tag) = encrypt_pattern(128, 128);
    let mut key = pattern_key();
    key[31] ^= 2;
    let nonce = pattern_nonce();
    let aad = pattern_aad(128);
    let mut buf = c.clone();
    let ok = Mrs::<Blake2P>::new().decrypt(&key, &nonce, &aad, &mut buf, &tag);
    assert!(!ok);
}

#[test]
fn different_nonce_changes_ciphertext() {
    let key = pattern_key();
    let aad = pattern_aad(16);
    let mut nonce2 = pattern_nonce();
    nonce2[0] ^= 1;
    let mut buf1 = pattern_msg(64);
    let mut buf2 = pattern_msg(64);
    let mut tag1 = [0u8; TAG_LENGTH];
    let mut tag2 = [0u8; TAG_LENGTH];
    Mrs::<Blake2P>::new().encrypt(&key, &pattern_nonce(), &aad, &mut buf1, &mut tag1);
    Mrs::<Blake2P>::new().encrypt(&key, &nonce2, &aad, &mut buf2, &mut tag2);
    assert_ne!(tag1, tag2);
    assert_ne!(buf1, buf2);
}

#[test]
fn default_context_encrypts_like_a_fresh_one() {
    let key = pattern_key();
    let nonce = pattern_nonce();
    let aad = pattern_aad(7);
    let mut buf1 = pattern_msg(40);
    let mut buf2 = pattern_msg(40);
    let mut tag1 = [0u8; TAG_LENGTH];
    let mut tag2 = [0u8; TAG_LENGTH];
    Mrs::<Blake2P>::default().encrypt(&key, &nonce, &aad, &mut buf1, &mut tag1);
    Mrs::<Blake2P>::new().encrypt(&key, &nonce, &aad, &mut buf2, &mut tag2);
    assert_eq!(buf1, buf2);
    assert_eq!(tag1, tag2);
}

#[test]
fn ciphertext_differs_from_plaintext() {
    // the keystream pass must actually transform the message
    let (c, _) = encrypt_pattern(0, 192);
    assert_ne!(c, pattern_msg(192));
}
