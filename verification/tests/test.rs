use mem_aead_mrs::blake2p::Blake2P;
use mem_aead_mrs::{Mrs, Permutation, KEY_LENGTH, NONCE_LENGTH, TAG_LENGTH};
use rand::Rng;

fn aead_encrypt<P: Permutation>(
    key: &[u8; KEY_LENGTH],
    nonce: &[u8; NONCE_LENGTH],
    aad: &[u8],
    m: &[u8],
    c: &mut [u8],
) {
    assert_eq!(m.len() + TAG_LENGTH, c.len());

    let (c, tag_out) = c.split_at_mut(m.len());
    c.copy_from_slice(m);
    let mut tag = [0u8; TAG_LENGTH];

    Mrs::<P>::new().encrypt(key, nonce, aad, c, &mut tag);
    tag_out.copy_from_slice(&tag);
}

fn aead_decrypt<P: Permutation>(
    key: &[u8; KEY_LENGTH],
    nonce: &[u8; NONCE_LENGTH],
    aad: &[u8],
    c: &[u8],
    m: &mut [u8],
) -> bool {
    assert!(c.len() >= TAG_LENGTH);
    assert_eq!(m.len() + TAG_LENGTH, c.len());

    let (c, tag_in) = c.split_at(m.len());
    m.copy_from_slice(c);
    let mut tag = [0u8; TAG_LENGTH];
    tag.copy_from_slice(tag_in);

    Mrs::<P>::new().decrypt(key, nonce, aad, m, &tag)
}

fn test_aead<P: Permutation>() {
    for i in 0..1025 {
        let mut key = [0; KEY_LENGTH];
        let mut nonce = [0; NONCE_LENGTH];
        let mut aad = vec![0; rand::random::<u64>() as usize % 128];
        let mut m = vec![0; i];
        let mut c = vec![0; m.len() + TAG_LENGTH];
        let mut p = vec![0; m.len()];

        rand::rng().fill_bytes(&mut key);
        rand::rng().fill_bytes(&mut nonce);
        rand::rng().fill_bytes(&mut aad);
        rand::rng().fill_bytes(&mut m);

        aead_encrypt::<P>(&key, &nonce, &aad, &m, &mut c);
        let r = aead_decrypt::<P>(&key, &nonce, &aad, &c, &mut p);
        assert!(r, "{} times", i);

        assert_eq!(p, m, "{} times", i);
    }
}

#[test]
fn test_blake2p() {
    test_aead::<Blake2P>();
}
