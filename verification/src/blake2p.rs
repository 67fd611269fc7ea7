//! The reference permutation: the BLAKE2b round function applied to a 4x4
//! column-major arrangement of the 16 state words, iterated four rounds,
//! with right-rotation constants (32, 24, 16, 63) and no round constants.
//!
//! The mode is defined generically over any permutation; this one pins the
//! test vectors down so that independent implementations interoperate.
use crate::{Permutation, LENGTH};
use vstd::prelude::*;
use vstd::wrapping::u64_specs;

verus! {

/// Right rotation of a 64-bit word.
pub open spec fn spec_rotr(x: u64, n: u64) -> u64
    recommends
        0 < n < 64,
{
    (x >> n) | (x << ((64 - n) as u64))
}

fn rotr(x: u64, n: u64) -> (r: u64)
    requires
        0 < n < 64,
    ensures
        r == spec_rotr(x, n),
{
    (x >> n) | (x << (64 - n))
}

/// The quarter-round on four words: two interleaved rounds of add, XOR and
/// rotate, additions modulo 2^64.
pub open spec fn spec_g(a: u64, b: u64, c: u64, d: u64) -> (u64, u64, u64, u64) {
    let a1 = u64_specs::wrapping_add(a, b);
    let d1 = spec_rotr(d ^ a1, 32);
    let c1 = u64_specs::wrapping_add(c, d1);
    let b1 = spec_rotr(b ^ c1, 24);
    let a2 = u64_specs::wrapping_add(a1, b1);
    let d2 = spec_rotr(d1 ^ a2, 16);
    let c2 = u64_specs::wrapping_add(c1, d2);
    let b2 = spec_rotr(b1 ^ c2, 63);
    (a2, b2, c2, d2)
}

fn g(a: u64, b: u64, c: u64, d: u64) -> (r: (u64, u64, u64, u64))
    ensures
        r == spec_g(a, b, c, d),
{
    let a = a.wrapping_add(b);
    let d = rotr(d ^ a, 32);
    let c = c.wrapping_add(d);
    let b = rotr(b ^ c, 24);
    let a = a.wrapping_add(b);
    let d = rotr(d ^ a, 16);
    let c = c.wrapping_add(d);
    let b = rotr(b ^ c, 63);
    (a, b, c, d)
}

/// One round: the quarter-round down each column, then down each diagonal.
pub open spec fn spec_round(s: Seq<u64>) -> Seq<u64> {
    let col0 = spec_g(s[0], s[4], s[8], s[12]);
    let col1 = spec_g(s[1], s[5], s[9], s[13]);
    let col2 = spec_g(s[2], s[6], s[10], s[14]);
    let col3 = spec_g(s[3], s[7], s[11], s[15]);
    let dia0 = spec_g(col0.0, col1.1, col2.2, col3.3);
    let dia1 = spec_g(col1.0, col2.1, col3.2, col0.3);
    let dia2 = spec_g(col2.0, col3.1, col0.2, col1.3);
    let dia3 = spec_g(col3.0, col0.1, col1.2, col2.3);
    seq![
        dia0.0,
        dia1.0,
        dia2.0,
        dia3.0,
        dia3.1,
        dia0.1,
        dia1.1,
        dia2.1,
        dia2.2,
        dia3.2,
        dia0.2,
        dia1.2,
        dia1.3,
        dia2.3,
        dia3.3,
        dia0.3,
    ]
}

fn round(x: &mut [u64; LENGTH])
    ensures
        final(x)@ == spec_round(old(x)@),
{
    // column step
    let (a, b, c, d) = g(x[0], x[4], x[8], x[12]);
    x[0] = a;
    x[4] = b;
    x[8] = c;
    x[12] = d;
    let (a, b, c, d) = g(x[1], x[5], x[9], x[13]);
    x[1] = a;
    x[5] = b;
    x[9] = c;
    x[13] = d;
    let (a, b, c, d) = g(x[2], x[6], x[10], x[14]);
    x[2] = a;
    x[6] = b;
    x[10] = c;
    x[14] = d;
    let (a, b, c, d) = g(x[3], x[7], x[11], x[15]);
    x[3] = a;
    x[7] = b;
    x[11] = c;
    x[15] = d;
    // diagonal step
    let (a, b, c, d) = g(x[0], x[5], x[10], x[15]);
    x[0] = a;
    x[5] = b;
    x[10] = c;
    x[15] = d;
    let (a, b, c, d) = g(x[1], x[6], x[11], x[12]);
    x[1] = a;
    x[6] = b;
    x[11] = c;
    x[12] = d;
    let (a, b, c, d) = g(x[2], x[7], x[8], x[13]);
    x[2] = a;
    x[7] = b;
    x[8] = c;
    x[13] = d;
    let (a, b, c, d) = g(x[3], x[4], x[9], x[14]);
    x[3] = a;
    x[4] = b;
    x[9] = c;
    x[14] = d;
    proof {
        assert(x@ =~= spec_round(old(x)@));
    }
}

/// The reference permutation as a capability type.
pub struct Blake2P;

impl Permutation for Blake2P {
    /// Four rounds of the BLAKE2b round function.
    open spec fn spec_permutation(s: Seq<u64>) -> Seq<u64> {
        spec_round(spec_round(spec_round(spec_round(s))))
    }

    fn permutation(state: &mut [u64; LENGTH]) {
        round(state);
        round(state);
        round(state);
        round(state);
    }
}

} // verus!
