//! The sponge state machine as a mathematical model.
//!
//! Every phase primitive has a spec-level counterpart here, defined over
//! `Seq<u64>` (the word view of the state) and `Seq<u8>` (inputs and
//! outputs), generic in the permutation.  The contracts of the executable
//! code and the round-trip laws are all stated over these functions.
use crate::words::{byte_at, le_word_at, state_byte};
use crate::Permutation;
use vstd::prelude::*;

verus! {

/// The all-zero state.
pub open spec fn zero_state() -> Seq<u64> {
    Seq::new(16, |i: int| 0u64)
}

/// The state right after `init(frame, key, nonce_or_tag)`:
/// the nonce (16 bytes) or tag (32 bytes) sits in the low bytes of the rate
/// words, words 9..12 carry the frame constants, and the key fills
/// words 12..16.  Words the nonce does not reach stay zero.
pub open spec fn init_state(frame: u64, key: Seq<u8>, nonce: Seq<u8>) -> Seq<u64> {
    Seq::new(
        16,
        |i: int|
            if i < 9 {
                le_word_at(nonce, 8 * i)
            } else if i == 9 {
                crate::L as u64
            } else if i == 10 {
                crate::T as u64
            } else if i == 11 {
                frame
            } else {
                le_word_at(key, 8 * (i - 12))
            },
    )
}

/// One absorption step: permute, then XOR the 128 bytes of block `blk` of
/// `data` into the byte view.  A short final block reads zero past the end
/// of `data`, so the same formula covers full and partial blocks.
pub open spec fn absorb_block<P: Permutation>(s: Seq<u64>, data: Seq<u8>, blk: int) -> Seq<u64> {
    let sp = P::spec_permutation(s);
    Seq::new(16, |w: int| sp[w] ^ le_word_at(data, 128 * blk + 8 * w))
}

/// The state after the first `k` absorption blocks of `data`.
pub open spec fn absorb_upto<P: Permutation>(s: Seq<u64>, data: Seq<u8>, k: int) -> Seq<u64>
    decreases k,
{
    if k <= 0 {
        s
    } else {
        absorb_block::<P>(absorb_upto::<P>(s, data, k - 1), data, k - 1)
    }
}

/// How many absorption blocks an input of `n` bytes takes: one per full
/// 128-byte block, plus one for a non-empty tail.  An empty input takes
/// none (absorbing nothing does not even permute).
pub open spec fn absorb_blocks(n: int) -> int {
    if n % 128 == 0 {
        n / 128
    } else {
        n / 128 + 1
    }
}

/// The state after absorbing all of `data`.
pub open spec fn absorb_state<P: Permutation>(s: Seq<u64>, data: Seq<u8>) -> Seq<u64> {
    absorb_upto::<P>(s, data, absorb_blocks(data.len() as int))
}

/// One full encryption step on the state: permute, then XOR the 96 bytes of
/// block `blk` of the plaintext into the rate words 0..12.  The capacity
/// words 12..16 are untouched by input in this phase.
pub open spec fn encrypt_block_state<P: Permutation>(s: Seq<u64>, m: Seq<u8>, blk: int) -> Seq<
    u64,
> {
    let sp = P::spec_permutation(s);
    Seq::new(
        16,
        |w: int|
            if w < 12 {
                sp[w] ^ le_word_at(m, 96 * blk + 8 * w)
            } else {
                sp[w]
            },
    )
}

/// The state after the first `k` full encryption blocks of `m`.
pub open spec fn encrypt_upto<P: Permutation>(s: Seq<u64>, m: Seq<u8>, k: int) -> Seq<u64>
    decreases k,
{
    if k <= 0 {
        s
    } else {
        encrypt_block_state::<P>(encrypt_upto::<P>(s, m, k - 1), m, k - 1)
    }
}

/// The 96 rate bytes of a state: the ciphertext emitted by one full
/// encryption block is exactly the post-XOR rate region.
pub open spec fn rate_bytes(s: Seq<u64>) -> Seq<u8> {
    Seq::new(96, |i: int| state_byte(s, i))
}

/// The ciphertext of the first `k` full encryption blocks.
pub open spec fn encrypt_out_upto<P: Permutation>(s: Seq<u64>, m: Seq<u8>, k: int) -> Seq<u8>
    decreases k,
{
    if k <= 0 {
        Seq::empty()
    } else {
        encrypt_out_upto::<P>(s, m, k - 1) + rate_bytes(encrypt_upto::<P>(s, m, k))
    }
}

/// The ciphertext of a short final block: permute, then XOR the keystream
/// bytes into the tail without feeding the result back into the state.
pub open spec fn encrypt_tail<P: Permutation>(s1: Seq<u64>, m: Seq<u8>) -> Seq<u8> {
    let fb = m.len() as int / 96;
    let r = m.len() as int % 96;
    let sp = P::spec_permutation(s1);
    Seq::new(r as nat, |i: int| m[96 * fb + i] ^ state_byte(sp, i))
}

/// The full ciphertext of `m`, starting from state `s0`.
pub open spec fn encrypt_bytes<P: Permutation>(s0: Seq<u64>, m: Seq<u8>) -> Seq<u8> {
    let fb = m.len() as int / 96;
    if m.len() as int % 96 == 0 {
        encrypt_out_upto::<P>(s0, m, fb)
    } else {
        encrypt_out_upto::<P>(s0, m, fb) + encrypt_tail::<P>(encrypt_upto::<P>(s0, m, fb), m)
    }
}

/// The state after encrypting all of `m` (a non-empty tail still permutes).
pub open spec fn encrypt_state<P: Permutation>(s0: Seq<u64>, m: Seq<u8>) -> Seq<u64> {
    let fb = m.len() as int / 96;
    if m.len() as int % 96 == 0 {
        encrypt_upto::<P>(s0, m, fb)
    } else {
        P::spec_permutation(encrypt_upto::<P>(s0, m, fb))
    }
}

/// One full decryption step on the state: permute, then store the
/// ciphertext block into the rate words, exactly the state an encryptor of
/// the recovered plaintext would have had.
pub open spec fn decrypt_block_state<P: Permutation>(s: Seq<u64>, c: Seq<u8>, blk: int) -> Seq<
    u64,
> {
    let sp = P::spec_permutation(s);
    Seq::new(
        16,
        |w: int|
            if w < 12 {
                le_word_at(c, 96 * blk + 8 * w)
            } else {
                sp[w]
            },
    )
}

/// The state after the first `k` full decryption blocks of `c`.
pub open spec fn decrypt_upto<P: Permutation>(s: Seq<u64>, c: Seq<u8>, k: int) -> Seq<u64>
    decreases k,
{
    if k <= 0 {
        s
    } else {
        decrypt_block_state::<P>(decrypt_upto::<P>(s, c, k - 1), c, k - 1)
    }
}

/// The plaintext recovered from one full decryption block: the pre-state
/// rate bytes XOR the ciphertext block.
pub open spec fn decrypt_block_out<P: Permutation>(s: Seq<u64>, c: Seq<u8>, blk: int) -> Seq<u8> {
    let sp = P::spec_permutation(s);
    Seq::new(96, |i: int| state_byte(sp, i) ^ byte_at(c, 96 * blk + i))
}

/// The plaintext of the first `k` full decryption blocks.
pub open spec fn decrypt_out_upto<P: Permutation>(s: Seq<u64>, c: Seq<u8>, k: int) -> Seq<u8>
    decreases k,
{
    if k <= 0 {
        Seq::empty()
    } else {
        decrypt_out_upto::<P>(s, c, k - 1) + decrypt_block_out::<P>(
            decrypt_upto::<P>(s, c, k - 1),
            c,
            k - 1,
        )
    }
}

/// The plaintext of a short final block, symmetric to `encrypt_tail`.
pub open spec fn decrypt_tail<P: Permutation>(s1: Seq<u64>, c: Seq<u8>) -> Seq<u8> {
    let fb = c.len() as int / 96;
    let r = c.len() as int % 96;
    let sp = P::spec_permutation(s1);
    Seq::new(r as nat, |i: int| c[96 * fb + i] ^ state_byte(sp, i))
}

/// The full plaintext recovered from `c`, starting from state `s0`.
pub open spec fn decrypt_bytes<P: Permutation>(s0: Seq<u64>, c: Seq<u8>) -> Seq<u8> {
    let fb = c.len() as int / 96;
    if c.len() as int % 96 == 0 {
        decrypt_out_upto::<P>(s0, c, fb)
    } else {
        decrypt_out_upto::<P>(s0, c, fb) + decrypt_tail::<P>(decrypt_upto::<P>(s0, c, fb), c)
    }
}

/// The state after decrypting all of `c`.
pub open spec fn decrypt_state<P: Permutation>(s0: Seq<u64>, c: Seq<u8>) -> Seq<u64> {
    let fb = c.len() as int / 96;
    if c.len() as int % 96 == 0 {
        decrypt_upto::<P>(s0, c, fb)
    } else {
        P::spec_permutation(decrypt_upto::<P>(s0, c, fb))
    }
}

/// The ciphertext of `k` full blocks is `96 * k` bytes long.
pub proof fn lemma_encrypt_out_upto_len<P: Permutation>(s0: Seq<u64>, m: Seq<u8>, k: int)
    requires
        k >= 0,
    ensures
        encrypt_out_upto::<P>(s0, m, k).len() == 96 * k,
    decreases k,
{
    if k > 0 {
        lemma_encrypt_out_upto_len::<P>(s0, m, k - 1);
    }
}

/// Each byte of the ciphertext of `k` full blocks is a rate byte of the
/// state after the block that produced it.
pub proof fn lemma_encrypt_out_upto_index<P: Permutation>(s0: Seq<u64>, m: Seq<u8>, k: int, q: int)
    requires
        0 <= q < 96 * k,
    ensures
        encrypt_out_upto::<P>(s0, m, k)[q] == state_byte(
            encrypt_upto::<P>(s0, m, q / 96 + 1),
            q % 96,
        ),
    decreases k,
{
    lemma_encrypt_out_upto_len::<P>(s0, m, k - 1);
    if q < 96 * (k - 1) {
        lemma_encrypt_out_upto_index::<P>(s0, m, k - 1, q);
    } else {
        vstd::arithmetic::div_mod::lemma_fundamental_div_mod_converse(
            q,
            96,
            k - 1,
            q - 96 * (k - 1),
        );
    }
}

/// The full ciphertext is exactly as long as the plaintext.
pub proof fn lemma_encrypt_bytes_len<P: Permutation>(s0: Seq<u64>, m: Seq<u8>)
    ensures
        encrypt_bytes::<P>(s0, m).len() == m.len(),
{
    let n = m.len() as int;
    vstd::arithmetic::div_mod::lemma_fundamental_div_mod(n, 96);
    lemma_encrypt_out_upto_len::<P>(s0, m, n / 96);
}

/// The plaintext of `k` full decryption blocks is `96 * k` bytes long.
pub proof fn lemma_decrypt_out_upto_len<P: Permutation>(s0: Seq<u64>, c: Seq<u8>, k: int)
    requires
        k >= 0,
    ensures
        decrypt_out_upto::<P>(s0, c, k).len() == 96 * k,
    decreases k,
{
    if k > 0 {
        lemma_decrypt_out_upto_len::<P>(s0, c, k - 1);
    }
}

/// Each byte of the plaintext of `k` full decryption blocks comes from the
/// block that recovered it.
pub proof fn lemma_decrypt_out_upto_index<P: Permutation>(s0: Seq<u64>, c: Seq<u8>, k: int, q: int)
    requires
        0 <= q < 96 * k,
    ensures
        decrypt_out_upto::<P>(s0, c, k)[q] == decrypt_block_out::<P>(
            decrypt_upto::<P>(s0, c, q / 96),
            c,
            q / 96,
        )[q % 96],
    decreases k,
{
    lemma_decrypt_out_upto_len::<P>(s0, c, k - 1);
    if q < 96 * (k - 1) {
        lemma_decrypt_out_upto_index::<P>(s0, c, k - 1, q);
    } else {
        vstd::arithmetic::div_mod::lemma_fundamental_div_mod_converse(
            q,
            96,
            k - 1,
            q - 96 * (k - 1),
        );
    }
}

/// The recovered plaintext is exactly as long as the ciphertext.
pub proof fn lemma_decrypt_bytes_len<P: Permutation>(s0: Seq<u64>, c: Seq<u8>)
    ensures
        decrypt_bytes::<P>(s0, c).len() == c.len(),
{
    let n = c.len() as int;
    vstd::arithmetic::div_mod::lemma_fundamental_div_mod(n, 96);
    lemma_decrypt_out_upto_len::<P>(s0, c, n / 96);
}

/// The state after `finalise`: permute, XOR the byte counts of the absorbed
/// associated data and message into words 0 and 1, permute again.
pub open spec fn finalise_state<P: Permutation>(s: Seq<u64>, hlen: u64, mlen: u64) -> Seq<u64> {
    let sp = P::spec_permutation(s);
    let sx = sp.update(0, sp[0] ^ hlen).update(1, sp[1] ^ mlen);
    P::spec_permutation(sx)
}

/// The tag: the first 32 bytes of the byte view of a finalised state.
pub open spec fn tag_bytes(s: Seq<u64>) -> Seq<u8> {
    Seq::new(32, |i: int| state_byte(s, i))
}

/// The authentication tag of `(key, nonce, aad, m)`: init with the
/// absorption frame, absorb the associated data and then the message, and
/// finalise with both byte counts.
pub open spec fn mrs_tag<P: Permutation>(
    key: Seq<u8>,
    nonce: Seq<u8>,
    aad: Seq<u8>,
    m: Seq<u8>,
) -> Seq<u8> {
    let s0 = init_state(0, key, nonce);
    let s1 = absorb_state::<P>(absorb_state::<P>(s0, aad), m);
    tag_bytes(finalise_state::<P>(s1, aad.len() as u64, m.len() as u64))
}

/// The ciphertext of `(key, nonce, aad, m)`: the tag doubles as the
/// synthetic nonce of the keystream pass.
pub open spec fn mrs_ciphertext<P: Permutation>(
    key: Seq<u8>,
    nonce: Seq<u8>,
    aad: Seq<u8>,
    m: Seq<u8>,
) -> Seq<u8> {
    encrypt_bytes::<P>(init_state(1, key, mrs_tag::<P>(key, nonce, aad, m)), m)
}

/// The candidate plaintext `decrypt` recovers from `c` under `key` and a
/// claimed `tag`, before any authentication.
pub open spec fn mrs_plaintext<P: Permutation>(key: Seq<u8>, tag: Seq<u8>, c: Seq<u8>) -> Seq<
    u8,
> {
    decrypt_bytes::<P>(init_state(1, key, tag), c)
}

} // verus!
