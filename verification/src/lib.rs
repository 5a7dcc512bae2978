//! A verified codec for a chunked binary container format: length-prefixed,
//! type-tagged, CRC-protected records behind a fixed 8-byte signature.
//!
//! The container holds an ordered sequence of records; parsing a byte buffer
//! and serializing the result give back the original buffer byte for byte.

use vstd::prelude::*;

pub mod chunk;
pub mod chunk_type;
pub mod codec;
pub mod png;
pub mod text;

verus! {

/// A byte is an ASCII letter (`A`-`Z` or `a`-`z`).
pub open spec fn is_ascii_letter(b: u8) -> bool {
    (65 <= b <= 90) || (97 <= b <= 122)
}

/// Every byte of the sequence is an ASCII letter.
pub open spec fn all_ascii_letters(s: Seq<u8>) -> bool {
    forall|i: int| 0 <= i < s.len() ==> is_ascii_letter(#[trigger] s[i])
}

} // verus!
