//! Frame tags: one-byte domain separators placed in word 11 of the state at
//! initialization time, telling the two sponge phases apart.
use vstd::prelude::*;

verus! {

/// A frame tag.  The absorption (authentication) phase and the encryption
/// (keystream) phase seed the state with different tag values, so the two
/// phases can never be confused even for identical key and nonce material.
pub trait Tag {
    /// The tag value as it appears in word 11 of the state.
    spec fn spec_tag() -> u64;

    /// The tag value, executable form.
    fn tag() -> (t: u64)
        ensures
            t == Self::spec_tag(),
    ;
}

/// Frame tag of the absorption phase.
pub struct Abs;

/// Frame tag of the encryption phase.
pub struct Enc;

impl Tag for Abs {
    open spec fn spec_tag() -> u64 {
        0
    }

    fn tag() -> u64 {
        0
    }
}

impl Tag for Enc {
    open spec fn spec_tag() -> u64 {
        1
    }

    fn tag() -> u64 {
        1
    }
}

} // verus!
