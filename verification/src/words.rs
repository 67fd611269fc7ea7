//! The byte view of the sponge state.
//!
//! The state is held as 64-bit words; every boundary crossing (absorbing
//! input, emitting keystream, copying the tag out) is specified through the
//! little-endian byte view defined here: byte `8*i + j` of the state is byte
//! `j` of word `i`, that is `(s[i] >> (8*j)) & 0xff`.
use vstd::prelude::*;

verus! {

/// Byte `j` of the word `w`, in the little-endian byte view.
pub open spec fn word_byte(w: u64, j: int) -> u8 {
    if j == 0 {
        (w & 0xff) as u8
    } else if j == 1 {
        ((w >> 8) & 0xff) as u8
    } else if j == 2 {
        ((w >> 16) & 0xff) as u8
    } else if j == 3 {
        ((w >> 24) & 0xff) as u8
    } else if j == 4 {
        ((w >> 32) & 0xff) as u8
    } else if j == 5 {
        ((w >> 40) & 0xff) as u8
    } else if j == 6 {
        ((w >> 48) & 0xff) as u8
    } else {
        ((w >> 56) & 0xff) as u8
    }
}

/// Byte `i` of the byte view of a word sequence.
pub open spec fn state_byte(s: Seq<u64>, i: int) -> u8 {
    word_byte(s[i / 8], i % 8)
}

/// Byte `i` of `data`, reading zero past either end.  Short final blocks
/// are absorbed as if padded with zeros, which this captures uniformly.
pub open spec fn byte_at(data: Seq<u8>, i: int) -> u8 {
    if 0 <= i < data.len() {
        data[i]
    } else {
        0u8
    }
}

/// The word with little-endian bytes `b0, ..., b7`.
pub open spec fn le_word(b0: u8, b1: u8, b2: u8, b3: u8, b4: u8, b5: u8, b6: u8, b7: u8) -> u64 {
    (b0 as u64) | ((b1 as u64) << 8) | ((b2 as u64) << 16) | ((b3 as u64) << 24) | ((b4 as u64)
        << 32) | ((b5 as u64) << 40) | ((b6 as u64) << 48) | ((b7 as u64) << 56)
}

/// The word formed by bytes `off .. off + 8` of `data`, zero-padded past
/// the end of `data`.
pub open spec fn le_word_at(data: Seq<u8>, off: int) -> u64 {
    le_word(
        byte_at(data, off),
        byte_at(data, off + 1),
        byte_at(data, off + 2),
        byte_at(data, off + 3),
        byte_at(data, off + 4),
        byte_at(data, off + 5),
        byte_at(data, off + 6),
        byte_at(data, off + 7),
    )
}

/// Assembling the eight bytes of a word gives the word back.
pub proof fn lemma_le_word_of_bytes(w: u64)
    ensures
        le_word(
            word_byte(w, 0),
            word_byte(w, 1),
            word_byte(w, 2),
            word_byte(w, 3),
            word_byte(w, 4),
            word_byte(w, 5),
            word_byte(w, 6),
            word_byte(w, 7),
        ) == w,
{
    assert(((w & 0xff) as u8 as u64) | ((((w >> 8) & 0xff) as u8 as u64) << 8) | ((((w >> 16)
        & 0xff) as u8 as u64) << 16) | ((((w >> 24) & 0xff) as u8 as u64) << 24) | ((((w >> 32)
        & 0xff) as u8 as u64) << 32) | ((((w >> 40) & 0xff) as u8 as u64) << 40) | ((((w >> 48)
        & 0xff) as u8 as u64) << 48) | ((((w >> 56) & 0xff) as u8 as u64) << 56) == w)
        by (bit_vector);
}

/// Each byte of an assembled word is the byte it was assembled from.
pub proof fn lemma_bytes_of_le_word(b0: u8, b1: u8, b2: u8, b3: u8, b4: u8, b5: u8, b6: u8, b7: u8)
    ensures
        word_byte(le_word(b0, b1, b2, b3, b4, b5, b6, b7), 0) == b0,
        word_byte(le_word(b0, b1, b2, b3, b4, b5, b6, b7), 1) == b1,
        word_byte(le_word(b0, b1, b2, b3, b4, b5, b6, b7), 2) == b2,
        word_byte(le_word(b0, b1, b2, b3, b4, b5, b6, b7), 3) == b3,
        word_byte(le_word(b0, b1, b2, b3, b4, b5, b6, b7), 4) == b4,
        word_byte(le_word(b0, b1, b2, b3, b4, b5, b6, b7), 5) == b5,
        word_byte(le_word(b0, b1, b2, b3, b4, b5, b6, b7), 6) == b6,
        word_byte(le_word(b0, b1, b2, b3, b4, b5, b6, b7), 7) == b7,
{
    let w = le_word(b0, b1, b2, b3, b4, b5, b6, b7);
    assert({
        &&& (w & 0xff) as u8 == b0
        &&& ((w >> 8) & 0xff) as u8 == b1
        &&& ((w >> 16) & 0xff) as u8 == b2
        &&& ((w >> 24) & 0xff) as u8 == b3
        &&& ((w >> 32) & 0xff) as u8 == b4
        &&& ((w >> 40) & 0xff) as u8 == b5
        &&& ((w >> 48) & 0xff) as u8 == b6
        &&& ((w >> 56) & 0xff) as u8 == b7
    }) by (bit_vector)
        requires
            w == le_word(b0, b1, b2, b3, b4, b5, b6, b7),
    ;
}

/// The all-zero word assembles from all-zero bytes.
pub proof fn lemma_le_word_zero()
    ensures
        le_word(0, 0, 0, 0, 0, 0, 0, 0) == 0u64,
{
    assert(le_word(0, 0, 0, 0, 0, 0, 0, 0) == 0u64) by (bit_vector);
}

/// XOR acts on the byte view byte by byte.
pub proof fn lemma_word_byte_xor(x: u64, y: u64)
    ensures
        forall|j: int| 0 <= j < 8 ==> #[trigger] word_byte(x ^ y, j) == word_byte(x, j) ^ word_byte(
            y,
            j,
        ),
{
    assert({
        &&& ((x ^ y) & 0xff) as u8 == ((x & 0xff) as u8) ^ ((y & 0xff) as u8)
        &&& (((x ^ y) >> 8) & 0xff) as u8 == (((x >> 8) & 0xff) as u8) ^ (((y >> 8) & 0xff) as u8)
        &&& (((x ^ y) >> 16) & 0xff) as u8 == (((x >> 16) & 0xff) as u8) ^ (((y >> 16)
            & 0xff) as u8)
        &&& (((x ^ y) >> 24) & 0xff) as u8 == (((x >> 24) & 0xff) as u8) ^ (((y >> 24)
            & 0xff) as u8)
        &&& (((x ^ y) >> 32) & 0xff) as u8 == (((x >> 32) & 0xff) as u8) ^ (((y >> 32)
            & 0xff) as u8)
        &&& (((x ^ y) >> 40) & 0xff) as u8 == (((x >> 40) & 0xff) as u8) ^ (((y >> 40)
            & 0xff) as u8)
        &&& (((x ^ y) >> 48) & 0xff) as u8 == (((x >> 48) & 0xff) as u8) ^ (((y >> 48)
            & 0xff) as u8)
        &&& (((x ^ y) >> 56) & 0xff) as u8 == (((x >> 56) & 0xff) as u8) ^ (((y >> 56)
            & 0xff) as u8)
    }) by (bit_vector);
}

/// XOR on bytes cancels: applying the same mask twice gives the byte back.
pub proof fn lemma_xor_cancel_u8(a: u8, b: u8)
    ensures
        (a ^ b) ^ a == b,
        a ^ (a ^ b) == b,
        (a ^ b) ^ b == a,
        a ^ b == b ^ a,
{
    assert(((a ^ b) ^ a == b) && (a ^ (a ^ b) == b) && ((a ^ b) ^ b == a) && (a ^ b == b ^ a))
        by (bit_vector);
}

/// Byte `j` of the word `w`, executable form.
pub fn word_byte_exec(w: u64, j: usize) -> (b: u8)
    requires
        j < 8,
    ensures
        b == word_byte(w, j as int),
{
    if j == 0 {
        (w & 0xff) as u8
    } else if j == 1 {
        ((w >> 8) & 0xff) as u8
    } else if j == 2 {
        ((w >> 16) & 0xff) as u8
    } else if j == 3 {
        ((w >> 24) & 0xff) as u8
    } else if j == 4 {
        ((w >> 32) & 0xff) as u8
    } else if j == 5 {
        ((w >> 40) & 0xff) as u8
    } else if j == 6 {
        ((w >> 48) & 0xff) as u8
    } else {
        ((w >> 56) & 0xff) as u8
    }
}

/// Load the little-endian word at byte offset `off` of `data`, reading
/// zero for every position past the end.
pub fn load_word(data: &[u8], off: usize) -> (w: u64)
    ensures
        w == le_word_at(data@, off as int),
{
    let n = data.len();
    let b0 = if off < n { data[off] } else { 0 };
    let b1 = if off < n && n - off > 1 { data[off + 1] } else { 0 };
    let b2 = if off < n && n - off > 2 { data[off + 2] } else { 0 };
    let b3 = if off < n && n - off > 3 { data[off + 3] } else { 0 };
    let b4 = if off < n && n - off > 4 { data[off + 4] } else { 0 };
    let b5 = if off < n && n - off > 5 { data[off + 5] } else { 0 };
    let b6 = if off < n && n - off > 6 { data[off + 6] } else { 0 };
    let b7 = if off < n && n - off > 7 { data[off + 7] } else { 0 };
    (b0 as u64) | ((b1 as u64) << 8) | ((b2 as u64) << 16) | ((b3 as u64) << 24) | ((b4 as u64)
        << 32) | ((b5 as u64) << 40) | ((b6 as u64) << 48) | ((b7 as u64) << 56)
}

/// Store the eight little-endian bytes of `w` at byte offset `off` of `data`.
pub fn store_word(data: &mut [u8], off: usize, w: u64)
    requires
        off + 8 <= old(data)@.len(),
    ensures
        final(data)@.len() == old(data)@.len(),
        forall|q: int|
            0 <= q < old(data)@.len() ==> final(data)@[q] == (if off <= q < off + 8 {
                word_byte(w, q - off)
            } else {
                old(data)@[q]
            }),
{
    let n = data.len();
    let mut j: usize = 0;
    while j < 8
        invariant
            j <= 8,
            off + 8 <= n,
            n == data@.len(),
            data@.len() == old(data)@.len(),
            forall|q: int|
                0 <= q < data@.len() ==> data@[q] == (if off <= q < off + j {
                    word_byte(w, q - off)
                } else {
                    old(data)@[q]
                }),
        decreases 8 - j,
    {
        data[off + j] = word_byte_exec(w, j);
        j += 1;
    }
}

} // verus!
