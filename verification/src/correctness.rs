//! The laws of the mode: decryption inverts encryption, and ciphertext and
//! tag are a function of the inputs alone.
use crate::model::{
    decrypt_block_out, decrypt_block_state, decrypt_bytes, decrypt_out_upto, decrypt_tail,
    decrypt_upto, encrypt_block_state, encrypt_bytes, encrypt_out_upto, encrypt_tail, encrypt_upto,
    init_state, lemma_encrypt_bytes_len, lemma_encrypt_out_upto_index, lemma_encrypt_out_upto_len,
    mrs_ciphertext, mrs_plaintext, mrs_tag,
};
use crate::words::{
    byte_at, le_word_at, lemma_bytes_of_le_word, lemma_le_word_of_bytes, lemma_word_byte_xor,
    lemma_xor_cancel_u8, state_byte, word_byte,
};
use crate::Permutation;
use vstd::arithmetic::div_mod::{lemma_fundamental_div_mod, lemma_fundamental_div_mod_converse};
use vstd::prelude::*;

verus! {

/// Every ciphertext byte of a full block is a rate byte of the state after
/// that block.
proof fn lemma_enc_byte<P: Permutation>(s0: Seq<u64>, m: Seq<u8>, q: int)
    requires
        0 <= q < 96 * (m.len() as int / 96),
    ensures
        byte_at(encrypt_bytes::<P>(s0, m), q) == state_byte(
            encrypt_upto::<P>(s0, m, q / 96 + 1),
            q % 96,
        ),
{
    let fb = m.len() as int / 96;
    lemma_encrypt_bytes_len::<P>(s0, m);
    lemma_encrypt_out_upto_len::<P>(s0, m, fb);
    lemma_encrypt_out_upto_index::<P>(s0, m, fb, q);
    lemma_fundamental_div_mod(m.len() as int, 96);
}

/// On the rate region, one encryption block turns the permuted state bytes
/// into their XOR with the plaintext block.
proof fn lemma_enc_block_byte<P: Permutation>(s: Seq<u64>, m: Seq<u8>, blk: int, i: int)
    requires
        0 <= i < 96,
    ensures
        state_byte(encrypt_block_state::<P>(s, m, blk), i) == state_byte(
            P::spec_permutation(s),
            i,
        ) ^ byte_at(m, 96 * blk + i),
{
    let w = i / 8;
    let t = i % 8;
    lemma_fundamental_div_mod(i, 8);
    let sp = P::spec_permutation(s);
    let off = 96 * blk + 8 * w;
    let mw = le_word_at(m, off);
    lemma_word_byte_xor(sp[w], mw);
    lemma_bytes_of_le_word(
        byte_at(m, off),
        byte_at(m, off + 1),
        byte_at(m, off + 2),
        byte_at(m, off + 3),
        byte_at(m, off + 4),
        byte_at(m, off + 5),
        byte_at(m, off + 6),
        byte_at(m, off + 7),
    );
    assert(word_byte(mw, t) == byte_at(m, 96 * blk + i));
}

/// Decrypting the ciphertext of `k` full blocks walks through exactly the
/// states the encryptor walked through, and recovers the plaintext blocks.
proof fn lemma_inverts_upto<P: Permutation>(s0: Seq<u64>, m: Seq<u8>, k: int)
    requires
        0 <= k <= m.len() as int / 96,
    ensures
        decrypt_upto::<P>(s0, encrypt_bytes::<P>(s0, m), k) == encrypt_upto::<P>(s0, m, k),
        decrypt_out_upto::<P>(s0, encrypt_bytes::<P>(s0, m), k) == m.take(96 * k),
    decreases k,
{
    let c = encrypt_bytes::<P>(s0, m);
    lemma_encrypt_bytes_len::<P>(s0, m);
    lemma_fundamental_div_mod(m.len() as int, 96);
    if k <= 0 {
        assert(m.take(0) =~= Seq::<u8>::empty());
    } else {
        lemma_inverts_upto::<P>(s0, m, k - 1);
        let sprev = encrypt_upto::<P>(s0, m, k - 1);
        let sp = P::spec_permutation(sprev);
        let sk = encrypt_block_state::<P>(sprev, m, k - 1);
        assert(encrypt_upto::<P>(s0, m, k) == sk);

        // The ciphertext bytes of block k - 1 are the rate bytes of `sk`.
        assert forall|i: int| 0 <= i < 96 implies byte_at(c, 96 * (k - 1) + i) == state_byte(
            sk,
            i,
        ) by {
            let q = 96 * (k - 1) + i;
            lemma_enc_byte::<P>(s0, m, q);
            lemma_fundamental_div_mod_converse(q, 96, k - 1, i);
        }

        // So the decryptor stores exactly the words of `sk` into the rate.
        assert forall|w: int| 0 <= w < 12 implies le_word_at(c, 96 * (k - 1) + 8 * w) == sk[w] by {
            let off = 96 * (k - 1) + 8 * w;
            assert forall|t: int| 0 <= t < 8 implies byte_at(c, off + t) == word_byte(
                sk[w],
                t,
            ) by {
                assert(byte_at(c, 96 * (k - 1) + (8 * w + t)) == state_byte(sk, 8 * w + t));
                lemma_fundamental_div_mod_converse(8 * w + t, 8, w, t);
            }
            lemma_le_word_of_bytes(sk[w]);
        }
        assert(decrypt_block_state::<P>(sprev, c, k - 1) =~= sk);

        // And the emitted bytes are the plaintext block.
        let ob = decrypt_block_out::<P>(sprev, c, k - 1);
        assert forall|i: int| 0 <= i < 96 implies ob[i] == m[96 * (k - 1) + i] by {
            let q = 96 * (k - 1) + i;
            assert(byte_at(c, q) == state_byte(sk, i));
            lemma_enc_block_byte::<P>(sprev, m, k - 1, i);
            lemma_xor_cancel_u8(state_byte(sp, i), byte_at(m, q));
            assert(byte_at(m, q) == m[q]);
        }
        assert(decrypt_out_upto::<P>(s0, c, k) =~= m.take(96 * k)) by {
            vstd::arithmetic::div_mod::lemma_mul_mod_noop_general(k - 1, 96, 96);
            crate::model::lemma_decrypt_out_upto_len::<P>(s0, c, k - 1);
            assert(decrypt_out_upto::<P>(s0, c, k) == m.take(96 * (k - 1)) + ob);
        }
    }
}

/// Decryption inverts encryption from any common starting state.
proof fn lemma_decrypt_inverts_encrypt<P: Permutation>(s0: Seq<u64>, m: Seq<u8>)
    ensures
        decrypt_bytes::<P>(s0, encrypt_bytes::<P>(s0, m)) == m,
{
    let c = encrypt_bytes::<P>(s0, m);
    lemma_encrypt_bytes_len::<P>(s0, m);
    let n = m.len() as int;
    let fb = n / 96;
    let r = n % 96;
    lemma_fundamental_div_mod(n, 96);
    lemma_inverts_upto::<P>(s0, m, fb);
    crate::model::lemma_decrypt_out_upto_len::<P>(s0, c, fb);
    if r == 0 {
        assert(m.take(96 * fb) =~= m);
    } else {
        let s1 = encrypt_upto::<P>(s0, m, fb);
        let sp = P::spec_permutation(s1);
        lemma_encrypt_out_upto_len::<P>(s0, m, fb);
        let tail = encrypt_tail::<P>(s1, m);
        assert(c == encrypt_out_upto::<P>(s0, m, fb) + tail);
        let dt = decrypt_tail::<P>(decrypt_upto::<P>(s0, c, fb), c);
        assert forall|i: int| 0 <= i < r implies dt[i] == m[96 * fb + i] by {
            assert(c[96 * fb + i] == tail[i]);
            assert(tail[i] == (m[96 * fb + i] ^ state_byte(sp, i)));
            lemma_xor_cancel_u8(m[96 * fb + i], state_byte(sp, i));
        }
        assert(decrypt_bytes::<P>(s0, c) =~= m);
    }
}

/// Round trip: for every key, nonce, associated data and message, the
/// plaintext that `decrypt` recovers from the ciphertext and tag `encrypt`
/// produced is the original message, and the tag it recomputes over that
/// plaintext is the tag `encrypt` wrote, so verification succeeds.
pub proof fn lemma_round_trip<P: Permutation>(
    key: Seq<u8>,
    nonce: Seq<u8>,
    aad: Seq<u8>,
    m: Seq<u8>,
)
    ensures
        mrs_plaintext::<P>(
            key,
            mrs_tag::<P>(key, nonce, aad, m),
            mrs_ciphertext::<P>(key, nonce, aad, m),
        ) == m,
        mrs_tag::<P>(
            key,
            nonce,
            aad,
            mrs_plaintext::<P>(
                key,
                mrs_tag::<P>(key, nonce, aad, m),
                mrs_ciphertext::<P>(key, nonce, aad, m),
            ),
        ) == mrs_tag::<P>(key, nonce, aad, m),
{
    let tag = mrs_tag::<P>(key, nonce, aad, m);
    lemma_decrypt_inverts_encrypt::<P>(init_state(1, key, tag), m);
}

/// Determinism, the misuse-resistance shape of the mode: ciphertext and tag
/// are functions of `(key, nonce, aad, m)` alone, so two independent
/// encryptions of the same inputs agree bit for bit.
pub proof fn lemma_encrypt_deterministic<P: Permutation>(
    key1: Seq<u8>,
    nonce1: Seq<u8>,
    aad1: Seq<u8>,
    m1: Seq<u8>,
    key2: Seq<u8>,
    nonce2: Seq<u8>,
    aad2: Seq<u8>,
    m2: Seq<u8>,
)
    requires
        key1 == key2,
        nonce1 == nonce2,
        aad1 == aad2,
        m1 == m2,
    ensures
        mrs_tag::<P>(key1, nonce1, aad1, m1) == mrs_tag::<P>(key2, nonce2, aad2, m2),
        mrs_ciphertext::<P>(key1, nonce1, aad1, m1) == mrs_ciphertext::<P>(key2, nonce2, aad2, m2),
{
}

/// Length exactness: the ciphertext is exactly as long as the message and
/// the tag is exactly 32 bytes, whatever the inputs.
pub proof fn lemma_length_exactness<P: Permutation>(
    key: Seq<u8>,
    nonce: Seq<u8>,
    aad: Seq<u8>,
    m: Seq<u8>,
)
    ensures
        mrs_ciphertext::<P>(key, nonce, aad, m).len() == m.len(),
        mrs_tag::<P>(key, nonce, aad, m).len() == 32,
{
    lemma_encrypt_bytes_len::<P>(init_state(1, key, mrs_tag::<P>(key, nonce, aad, m)), m);
}

} // verus!
