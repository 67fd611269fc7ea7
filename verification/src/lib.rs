//! MRS: a misuse-resistant sponge AEAD, generic over a 16-word permutation.
//!
//! The mode absorbs associated data and plaintext into a 128-byte sponge
//! state, derives a 32-byte tag from both, and then re-keys the sponge with
//! that tag to produce the keystream.  Ciphertext and tag are therefore
//! deterministic in `(key, nonce, aad, message)`, even under nonce reuse.
pub mod blake2p;
pub mod common;
pub mod correctness;
pub mod model;
pub mod words;

use crate::common::{Abs, Enc, Tag};
use crate::model::{
    absorb_block, absorb_blocks, absorb_state, absorb_upto, decrypt_block_out,
    decrypt_block_state, decrypt_bytes, decrypt_out_upto, decrypt_state, decrypt_upto,
    encrypt_block_state, encrypt_bytes, encrypt_out_upto, encrypt_state, encrypt_upto,
    finalise_state, init_state,
    lemma_decrypt_bytes_len, lemma_decrypt_out_upto_index, lemma_decrypt_out_upto_len,
    lemma_encrypt_bytes_len, lemma_encrypt_out_upto_index, lemma_encrypt_out_upto_len,
    mrs_ciphertext, mrs_plaintext, mrs_tag, tag_bytes, zero_state,
};
use crate::words::{byte_at, le_word_at, lemma_bytes_of_le_word, lemma_le_word_zero,
    lemma_word_byte_xor, load_word, state_byte, store_word, word_byte, word_byte_exec};
use core::marker::PhantomData;
use vstd::prelude::*;

verus! {

/// Word width of the sponge state, in bits.
pub const W: usize = 64;

/// Round count announced to the permutation through frame word 9.
pub const L: usize = 4;

/// Tag bit-length announced through frame word 10.
pub const T: usize = 256;

/// State size in 64-bit words.
pub const LENGTH: usize = 16;

/// Key size in bytes.
pub const KEY_LENGTH: usize = 32;

/// Nonce size in bytes.
pub const NONCE_LENGTH: usize = 16;

/// Tag size in bytes.
pub const TAG_LENGTH: usize = 32;

/// State size in bytes.
pub const STATE_LENGTH: usize = 128;

/// Rate of the encryption phase in bytes (words 0..12 of the state).
pub const BLOCK_LENGTH: usize = 96;

/// The permutation capability: a pure function on the 16-word state,
/// supplied by the caller as a type.  The mode is defined generically over
/// it; `spec_permutation` is the function an implementation computes, and
/// every contract of the mode is stated in terms of it.
pub trait Permutation {
    /// The permutation as a mathematical function on the word view.
    spec fn spec_permutation(s: Seq<u64>) -> Seq<u64>;

    /// Apply the permutation to the state in place.
    fn permutation(state: &mut [u64; LENGTH])
        ensures
            final(state)@ == Self::spec_permutation(old(state)@),
    ;
}

/// The MRS context: one sponge state bound to a permutation.  A context is
/// consumed by a single `encrypt` or `decrypt` call and never reused.  The
/// state is not zeroed when the context is released.
pub struct Mrs<P: Permutation> {
    state: [u64; LENGTH],
    _phantom: PhantomData<P>,
}

impl<P: Permutation> View for Mrs<P> {
    type V = Seq<u64>;

    closed spec fn view(&self) -> Seq<u64> {
        self.state@
    }
}

impl<P: Permutation> Default for Mrs<P> {
    fn default() -> (r: Self)
        ensures
            r@ == zero_state(),
    {
        Self::new()
    }
}

impl<P: Permutation> Mrs<P> {
    /// A fresh context with an all-zero state.
    pub fn new() -> (r: Mrs<P>)
        ensures
            r@ == zero_state(),
    {
        let r = Mrs { state: [0u64;LENGTH], _phantom: PhantomData };
        proof {
            assert(r@ =~= zero_state());
        }
        r
    }

    /// Reset the state for one phase: zero it, copy the nonce (16 bytes) or
    /// the tag (32 bytes) into the low rate bytes, set the frame words, and
    /// copy the key into words 12..16.
    pub(crate) fn init<F: Tag>(&mut self, key: &[u8; KEY_LENGTH], nonce: &[u8])
        requires
            nonce@.len() == NONCE_LENGTH || nonce@.len() == TAG_LENGTH,
        ensures
            final(self)@ == init_state(F::spec_tag(), key@, nonce@),
    {
        self.state = [0u64;LENGTH];
        let mut w: usize = 0;
        while w < 4
            invariant
                w <= 4,
                self.state@.len() == 16,
                nonce@.len() == 16 || nonce@.len() == 32,
                forall|i: int| 0 <= i < w ==> self.state@[i] == le_word_at(nonce@, 8 * i),
                forall|i: int| w <= i < 16 ==> self.state@[i] == 0u64,
            decreases 4 - w,
        {
            self.state[w] = load_word(nonce, 8 * w);
            w += 1;
        }
        self.state[9] = L as u64;
        self.state[10] = T as u64;
        self.state[11] = F::tag();
        let mut w: usize = 0;
        while w < 4
            invariant
                w <= 4,
                self.state@.len() == 16,
                nonce@.len() == 16 || nonce@.len() == 32,
                forall|i: int| 0 <= i < 4 ==> self.state@[i] == le_word_at(nonce@, 8 * i),
                forall|i: int| 4 <= i < 9 ==> self.state@[i] == 0u64,
                self.state@[9] == L as u64,
                self.state@[10] == T as u64,
                self.state@[11] == F::spec_tag(),
                forall|i: int| 12 <= i < 12 + w ==> self.state@[i] == le_word_at(key@, 8 * (i - 12)),
            decreases 4 - w,
        {
            self.state[12 + w] = load_word(key.as_slice(), 8 * w);
            w += 1;
        }
        proof {
            assert forall|i: int| 4 <= i < 9 implies #[trigger] le_word_at(nonce@, 8 * i)
                == 0u64 by {
                lemma_le_word_zero();
            }
            assert(self.state@ =~= init_state(F::spec_tag(), key@, nonce@));
        }
    }

    /// Absorb `data` into the state in 128-byte blocks: permute, then XOR
    /// the block into the byte view.  A short final block is XORed into the
    /// low bytes only; an empty input is a no-op.
    pub(crate) fn absorb(&mut self, data: &[u8])
        ensures
            final(self)@ == absorb_state::<P>(old(self)@, data@),
    {
        let n = data.len();
        let nblocks = n / 128 + if n % 128 != 0 {
            1
        } else {
            0
        };
        proof {
            vstd::arithmetic::div_mod::lemma_fundamental_div_mod(n as int, 128);
        }
        let mut blk: usize = 0;
        while blk < nblocks
            invariant
                blk <= nblocks,
                n == data@.len(),
                nblocks as int == absorb_blocks(n as int),
                128 * (nblocks as int) <= n as int + 128,
                self@ == absorb_upto::<P>(old(self)@, data@, blk as int),
            decreases nblocks - blk,
        {
            let ghost s_in = self.state@;
            P::permutation(&mut self.state);
            let ghost sp = self.state@;
            proof {
                vstd::arithmetic::div_mod::lemma_fundamental_div_mod(n as int, 128);
            }
            let base = blk * 128;
            let mut w: usize = 0;
            while w < 16
                invariant
                    w <= 16,
                    base == 128 * (blk as int),
                    base <= n,
                    n == data@.len(),
                    self.state@.len() == 16,
                    forall|ww: int|
                        0 <= ww < w ==> self.state@[ww] == sp[ww] ^ le_word_at(
                            data@,
                            128 * (blk as int) + 8 * ww,
                        ),
                    forall|ww: int| w <= ww < 16 ==> self.state@[ww] == sp[ww],
                decreases 16 - w,
            {
                let woff = 8 * w;
                let x = if n - base > woff {
                    load_word(data, base + woff)
                } else {
                    proof {
                        lemma_le_word_zero();
                    }
                    0u64
                };
                assert(x == le_word_at(data@, 128 * (blk as int) + 8 * (w as int)));
                self.state[w] = self.state[w] ^ x;
                w += 1;
            }
            proof {
                assert(self.state@ =~= absorb_block::<P>(s_in, data@, blk as int));
                assert(absorb_upto::<P>(old(self)@, data@, blk as int + 1) == absorb_block::<P>(
                    absorb_upto::<P>(old(self)@, data@, blk as int),
                    data@,
                    blk as int,
                ));
            }
            blk += 1;
        }
    }

    /// Finalise the absorption phase: permute, XOR the byte counts of the
    /// associated data and the message into words 0 and 1, permute again,
    /// and copy the first 32 bytes of the byte view out as the tag.
    pub(crate) fn finalise(&mut self, hlen: usize, mlen: usize, tag: &mut [u8; TAG_LENGTH])
        ensures
            final(self)@ == finalise_state::<P>(old(self)@, hlen as u64, mlen as u64),
            final(tag)@ == tag_bytes(final(self)@),
    {
        let ghost s_in = self.state@;
        P::permutation(&mut self.state);
        let ghost sp = self.state@;
        self.state[0] = self.state[0] ^ (hlen as u64);
        self.state[1] = self.state[1] ^ (mlen as u64);
        proof {
            assert(self.state@ =~= sp.update(0, sp[0] ^ (hlen as u64)).update(
                1,
                sp[1] ^ (mlen as u64),
            ));
        }
        P::permutation(&mut self.state);
        let mut i: usize = 0;
        while i < 32
            invariant
                i <= 32,
                self.state@.len() == 16,
                self.state@ == finalise_state::<P>(s_in, hlen as u64, mlen as u64),
                tag@.len() == 32,
                forall|q: int| 0 <= q < i ==> tag@[q] == state_byte(self.state@, q),
            decreases 32 - i,
        {
            tag[i] = word_byte_exec(self.state[i / 8], i % 8);
            i += 1;
        }
        proof {
            assert(tag@ =~= tag_bytes(self.state@));
        }
    }

    /// Encrypt `m` in place with a 96-byte rate.  Each full block is
    /// permute-then-XOR with write-back: the emitted ciphertext bytes are
    /// the post-XOR rate bytes, which stay in the state.  A short final
    /// block XORs the keystream into the tail without write-back.
    pub(crate) fn encrypt_data(&mut self, m: &mut [u8])
        ensures
            final(self)@ == encrypt_state::<P>(old(self)@, old(m)@),
            final(m)@ == encrypt_bytes::<P>(old(self)@, old(m)@),
            final(m)@.len() == old(m)@.len(),
    {
        let n = m.len();
        let fb = n / 96;
        proof {
            vstd::arithmetic::div_mod::lemma_fundamental_div_mod(n as int, 96);
        }
        let mut blk: usize = 0;
        while blk < fb
            invariant
                blk <= fb,
                fb == n as int / 96,
                96 * (fb as int) <= n as int,
                n == m@.len(),
                m@.len() == old(m)@.len(),
                self@ == encrypt_upto::<P>(old(self)@, old(m)@, blk as int),
                forall|q: int|
                    0 <= q < 96 * (blk as int) ==> m@[q] == state_byte(
                        encrypt_upto::<P>(old(self)@, old(m)@, q / 96 + 1),
                        q % 96,
                    ),
                forall|q: int| 96 * (blk as int) <= q < n ==> m@[q] == old(m)@[q],
            decreases fb - blk,
        {
            let ghost s_in = self.state@;
            let ghost m_in = m@;
            P::permutation(&mut self.state);
            let ghost sp = self.state@;
            let ghost sb = encrypt_block_state::<P>(s_in, old(m)@, blk as int);
            let base = blk * 96;
            let mut w: usize = 0;
            while w < 12
                invariant
                    w <= 12,
                    base == 96 * (blk as int),
                    base + 96 <= n,
                    n == m@.len(),
                    m@.len() == old(m)@.len(),
                    self.state@.len() == 16,
                    sp == P::spec_permutation(s_in),
                    sb == encrypt_block_state::<P>(s_in, old(m)@, blk as int),
                    forall|ww: int| 0 <= ww < w ==> self.state@[ww] == sb[ww],
                    forall|ww: int| w <= ww < 16 ==> self.state@[ww] == sp[ww],
                    forall|q: int| 0 <= q < base ==> m@[q] == m_in[q],
                    forall|q: int|
                        base <= q < base + 8 * w ==> m@[q] == state_byte(sb, q - base),
                    forall|q: int| base + 8 * w <= q < n ==> m@[q] == m_in[q],
                    forall|q: int| 96 * (blk as int) <= q < n ==> m_in[q] == old(m)@[q],
                decreases 12 - w,
            {
                let off = base + 8 * w;
                let mw = load_word(m, off);
                proof {
                    assert forall|q: int| off <= q < off + 8 implies byte_at(m@, q) == byte_at(
                        old(m)@,
                        q,
                    ) by {
                        assert(m@[q] == m_in[q]);
                        assert(m_in[q] == old(m)@[q]);
                    }
                    assert(le_word_at(m@, off as int) == le_word_at(old(m)@, off as int));
                }
                let x = self.state[w] ^ mw;
                self.state[w] = x;
                store_word(m, off, x);
                proof {
                    assert(x == sb[w as int]);
                    assert forall|q: int| off <= q < off + 8 implies m@[q] == state_byte(
                        sb,
                        q - base,
                    ) by {
                        vstd::arithmetic::div_mod::lemma_fundamental_div_mod_converse(
                            q - base,
                            8,
                            w as int,
                            q - off,
                        );
                    }
                }
                w += 1;
            }
            proof {
                assert(self.state@ =~= sb);
                assert(encrypt_upto::<P>(old(self)@, old(m)@, blk as int + 1)
                    == encrypt_block_state::<P>(
                    encrypt_upto::<P>(old(self)@, old(m)@, blk as int),
                    old(m)@,
                    blk as int,
                ));
                assert forall|q: int| 0 <= q < 96 * (blk as int + 1) implies m@[q] == state_byte(
                    encrypt_upto::<P>(old(self)@, old(m)@, q / 96 + 1),
                    q % 96,
                ) by {
                    if base <= q {
                        vstd::arithmetic::div_mod::lemma_fundamental_div_mod_converse(
                            q,
                            96,
                            blk as int,
                            q - base,
                        );
                        assert(m@[q] == state_byte(sb, q - base));
                    } else {
                        assert(m@[q] == m_in[q]);
                        assert(m_in[q] == state_byte(
                            encrypt_upto::<P>(old(self)@, old(m)@, q / 96 + 1),
                            q % 96,
                        ));
                    }
                }
            }
            blk += 1;
        }
        let r = n - 96 * fb;
        if r != 0 {
            P::permutation(&mut self.state);
            let ghost spt = self.state@;
            let base = 96 * fb;
            let mut i: usize = 0;
            while i < r
                invariant
                    i <= r,
                    r == n - 96 * (fb as int),
                    0 < r < 96,
                    base == 96 * (fb as int),
                    n == m@.len(),
                    m@.len() == old(m)@.len(),
                    self.state@ == spt,
                    spt == P::spec_permutation(encrypt_upto::<P>(old(self)@, old(m)@, fb as int)),
                    forall|q: int|
                        0 <= q < 96 * (fb as int) ==> m@[q] == state_byte(
                            encrypt_upto::<P>(old(self)@, old(m)@, q / 96 + 1),
                            q % 96,
                        ),
                    forall|q: int|
                        base <= q < base + i ==> m@[q] == (old(m)@[q] ^ state_byte(
                            spt,
                            q - base,
                        )),
                    forall|q: int| base + i <= q < n ==> m@[q] == old(m)@[q],
                decreases r - i,
            {
                let b = m[base + i] ^ word_byte_exec(self.state[i / 8], i % 8);
                m[base + i] = b;
                i += 1;
            }
        }
        proof {
            lemma_encrypt_bytes_len::<P>(old(self)@, old(m)@);
            lemma_encrypt_out_upto_len::<P>(old(self)@, old(m)@, fb as int);
            assert forall|q: int| 0 <= q < 96 * (fb as int) implies encrypt_out_upto::<P>(
                old(self)@,
                old(m)@,
                fb as int,
            )[q] == m@[q] by {
                lemma_encrypt_out_upto_index::<P>(old(self)@, old(m)@, fb as int, q);
            }
            assert(m@ =~= encrypt_bytes::<P>(old(self)@, old(m)@));
        }
    }

    /// Decrypt `c` in place, the adjoint of `encrypt_data`: for each full
    /// block the ciphertext bytes are stored into the rate words (the state
    /// an encryptor of the recovered plaintext would hold) and the pre-state
    /// bytes XOR the ciphertext are emitted.  The short final block XORs the
    /// keystream without write-back, as in encryption.
    pub(crate) fn decrypt_data(&mut self, c: &mut [u8])
        ensures
            final(self)@ == decrypt_state::<P>(old(self)@, old(c)@),
            final(c)@ == decrypt_bytes::<P>(old(self)@, old(c)@),
            final(c)@.len() == old(c)@.len(),
    {
        let n = c.len();
        let fb = n / 96;
        proof {
            vstd::arithmetic::div_mod::lemma_fundamental_div_mod(n as int, 96);
        }
        let mut blk: usize = 0;
        while blk < fb
            invariant
                blk <= fb,
                fb == n as int / 96,
                96 * (fb as int) <= n as int,
                n == c@.len(),
                c@.len() == old(c)@.len(),
                self@ == decrypt_upto::<P>(old(self)@, old(c)@, blk as int),
                forall|q: int|
                    0 <= q < 96 * (blk as int) ==> c@[q] == decrypt_block_out::<P>(
                        decrypt_upto::<P>(old(self)@, old(c)@, q / 96),
                        old(c)@,
                        q / 96,
                    )[q % 96],
                forall|q: int| 96 * (blk as int) <= q < n ==> c@[q] == old(c)@[q],
            decreases fb - blk,
        {
            let ghost s_in = self.state@;
            let ghost c_in = c@;
            P::permutation(&mut self.state);
            let ghost sp = self.state@;
            let ghost sb = decrypt_block_state::<P>(s_in, old(c)@, blk as int);
            let ghost ob = decrypt_block_out::<P>(s_in, old(c)@, blk as int);
            let base = blk * 96;
            let mut w: usize = 0;
            while w < 12
                invariant
                    w <= 12,
                    base == 96 * (blk as int),
                    base + 96 <= n,
                    n == c@.len(),
                    c@.len() == old(c)@.len(),
                    self.state@.len() == 16,
                    sp == P::spec_permutation(s_in),
                    sb == decrypt_block_state::<P>(s_in, old(c)@, blk as int),
                    ob == decrypt_block_out::<P>(s_in, old(c)@, blk as int),
                    forall|ww: int| 0 <= ww < w ==> self.state@[ww] == sb[ww],
                    forall|ww: int| w <= ww < 16 ==> self.state@[ww] == sp[ww],
                    forall|q: int| 0 <= q < base ==> c@[q] == c_in[q],
                    forall|q: int| base <= q < base + 8 * w ==> c@[q] == ob[q - base],
                    forall|q: int| base + 8 * w <= q < n ==> c@[q] == c_in[q],
                    forall|q: int| 96 * (blk as int) <= q < n ==> c_in[q] == old(c)@[q],
                decreases 12 - w,
            {
                let off = base + 8 * w;
                let cw = load_word(c, off);
                proof {
                    assert forall|q: int| off <= q < off + 8 implies byte_at(c@, q) == byte_at(
                        old(c)@,
                        q,
                    ) by {
                        assert(c@[q] == c_in[q]);
                        assert(c_in[q] == old(c)@[q]);
                    }
                    assert(cw == le_word_at(old(c)@, off as int));
                }
                let s = self.state[w];
                let x = s ^ cw;
                self.state[w] = cw;
                store_word(c, off, x);
                proof {
                    lemma_word_byte_xor(s, cw);
                    lemma_bytes_of_le_word(
                        byte_at(old(c)@, off as int),
                        byte_at(old(c)@, off as int + 1),
                        byte_at(old(c)@, off as int + 2),
                        byte_at(old(c)@, off as int + 3),
                        byte_at(old(c)@, off as int + 4),
                        byte_at(old(c)@, off as int + 5),
                        byte_at(old(c)@, off as int + 6),
                        byte_at(old(c)@, off as int + 7),
                    );
                    assert forall|q: int| off <= q < off + 8 implies c@[q] == ob[q - base] by {
                        vstd::arithmetic::div_mod::lemma_fundamental_div_mod_converse(
                            q - base,
                            8,
                            w as int,
                            q - off,
                        );
                        assert(c@[q] == word_byte(x, q - off));
                        assert(word_byte(cw, q - off) == byte_at(old(c)@, q));
                        assert(ob[q - base] == state_byte(sp, q - base) ^ byte_at(old(c)@, q));
                        assert(state_byte(sp, q - base) == word_byte(sp[w as int], q - off));
                    }
                }
                w += 1;
            }
            proof {
                assert(self.state@ =~= sb);
                assert(decrypt_upto::<P>(old(self)@, old(c)@, blk as int + 1)
                    == decrypt_block_state::<P>(
                    decrypt_upto::<P>(old(self)@, old(c)@, blk as int),
                    old(c)@,
                    blk as int,
                ));
                assert forall|q: int| 0 <= q < 96 * (blk as int + 1) implies c@[q]
                    == decrypt_block_out::<P>(
                    decrypt_upto::<P>(old(self)@, old(c)@, q / 96),
                    old(c)@,
                    q / 96,
                )[q % 96] by {
                    if base <= q {
                        vstd::arithmetic::div_mod::lemma_fundamental_div_mod_converse(
                            q,
                            96,
                            blk as int,
                            q - base,
                        );
                        assert(c@[q] == ob[q - base]);
                    } else {
                        assert(c@[q] == c_in[q]);
                        assert(c_in[q] == decrypt_block_out::<P>(
                            decrypt_upto::<P>(old(self)@, old(c)@, q / 96),
                            old(c)@,
                            q / 96,
                        )[q % 96]);
                    }
                }
            }
            blk += 1;
        }
        let r = n - 96 * fb;
        if r != 0 {
            P::permutation(&mut self.state);
            let ghost spt = self.state@;
            let base = 96 * fb;
            let mut i: usize = 0;
            while i < r
                invariant
                    i <= r,
                    r == n - 96 * (fb as int),
                    0 < r < 96,
                    base == 96 * (fb as int),
                    n == c@.len(),
                    c@.len() == old(c)@.len(),
                    self.state@ == spt,
                    spt == P::spec_permutation(decrypt_upto::<P>(old(self)@, old(c)@, fb as int)),
                    forall|q: int|
                        0 <= q < 96 * (fb as int) ==> c@[q] == decrypt_block_out::<P>(
                            decrypt_upto::<P>(old(self)@, old(c)@, q / 96),
                            old(c)@,
                            q / 96,
                        )[q % 96],
                    forall|q: int|
                        base <= q < base + i ==> c@[q] == (old(c)@[q] ^ state_byte(
                            spt,
                            q - base,
                        )),
                    forall|q: int| base + i <= q < n ==> c@[q] == old(c)@[q],
                decreases r - i,
            {
                let b = c[base + i] ^ word_byte_exec(self.state[i / 8], i % 8);
                c[base + i] = b;
                i += 1;
            }
        }
        proof {
            lemma_decrypt_bytes_len::<P>(old(self)@, old(c)@);
            lemma_decrypt_out_upto_len::<P>(old(self)@, old(c)@, fb as int);
            assert forall|q: int| 0 <= q < 96 * (fb as int) implies decrypt_out_upto::<P>(
                old(self)@,
                old(c)@,
                fb as int,
            )[q] == c@[q] by {
                lemma_decrypt_out_upto_index::<P>(old(self)@, old(c)@, fb as int, q);
            }
            assert(c@ =~= decrypt_bytes::<P>(old(self)@, old(c)@));
        }
    }

    /// Encrypt `m` in place under `key` and `nonce`, authenticating `aad`
    /// and `m`, and write the 32-byte tag.
    ///
    /// First pass: init with the absorption frame, absorb `aad` then `m`,
    /// finalise with both byte counts to derive the tag.  Second pass: init
    /// with the encryption frame and the tag as the synthetic nonce, then
    /// turn `m` into ciphertext.  The context is consumed.
    pub fn encrypt(
        self,
        key: &[u8; KEY_LENGTH],
        nonce: &[u8; NONCE_LENGTH],
        aad: &[u8],
        m: &mut [u8],
        tag: &mut [u8; TAG_LENGTH],
    )
        ensures
            final(tag)@ == mrs_tag::<P>(key@, nonce@, aad@, old(m)@),
            final(m)@ == mrs_ciphertext::<P>(key@, nonce@, aad@, old(m)@),
            final(m)@.len() == old(m)@.len(),
    {
        let mut this = self;

        // absorption phase
        this.init::<Abs>(key, nonce.as_slice());
        this.absorb(aad);
        this.absorb(m);
        this.finalise(aad.len(), m.len(), tag);

        // encryption phase
        this.init::<Enc>(key, tag.as_slice());
        this.encrypt_data(m);
        proof {
            lemma_encrypt_bytes_len::<P>(
                init_state(1, key@, mrs_tag::<P>(key@, nonce@, aad@, old(m)@)),
                old(m)@,
            );
        }
    }

    /// Decrypt `c` in place under `key` and `nonce` and verify `tag` over
    /// `aad` and the recovered plaintext, returning whether the tag matched.
    ///
    /// The keystream pass is undone first, then the absorption pass is
    /// replayed over the candidate plaintext and its tag is compared with
    /// the claimed one in constant time.  On `false` the buffer holds the
    /// unauthenticated candidate and must be discarded.  The context is
    /// consumed.
    pub fn decrypt(
        self,
        key: &[u8; KEY_LENGTH],
        nonce: &[u8; NONCE_LENGTH],
        aad: &[u8],
        c: &mut [u8],
        tag: &[u8; TAG_LENGTH],
    ) -> (ok: bool)
        ensures
            final(c)@ == mrs_plaintext::<P>(key@, tag@, old(c)@),
            final(c)@.len() == old(c)@.len(),
            ok == (tag@ == mrs_tag::<P>(key@, nonce@, aad@, final(c)@)),
    {
        let mut this = self;
        let mut tag2 = [0u8;TAG_LENGTH];

        // decryption phase
        this.init::<Enc>(key, tag.as_slice());
        this.decrypt_data(c);

        // absorption phase over the recovered plaintext
        this.init::<Abs>(key, nonce.as_slice());
        this.absorb(aad);
        this.absorb(c);
        this.finalise(aad.len(), c.len(), &mut tag2);

        // verification phase
        ct_eq_tag(tag, &tag2)
    }
}

/// Relies on subtle's `ConstantTimeEq` for byte slices: `ct_eq` returns
/// `Choice(1)` exactly when the two slices hold the same bytes, combining
/// all 32 positions with bitwise accumulation and no early exit.
#[verifier::external_body]
fn ct_eq_tag(a: &[u8; TAG_LENGTH], b: &[u8; TAG_LENGTH]) -> (r: bool)
    ensures
        r == (a@ == b@),
{
    subtle::ConstantTimeEq::ct_eq(a.as_slice(), b.as_slice()).unwrap_u8() == 1
}

} // verus!

