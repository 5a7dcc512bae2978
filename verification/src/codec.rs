//! Big-endian encoding of 32-bit integers: the length and checksum fields of
//! a record are stored as 4 bytes, most significant first.

use vstd::prelude::*;

verus! {

broadcast use vstd::slice::group_slice_axioms;

/// The 4-byte big-endian encoding of `x`.
pub open spec fn spec_u32_to_be_bytes(x: u32) -> Seq<u8> {
    seq![
        ((x >> 24) & 0xff) as u8,
        ((x >> 16) & 0xff) as u8,
        ((x >> 8) & 0xff) as u8,
        (x & 0xff) as u8,
    ]
}

/// The 32-bit value read big-endian from a 4-byte sequence.
pub open spec fn spec_u32_from_be_bytes(s: Seq<u8>) -> u32
    recommends
        s.len() == 4,
{
    (((s[0] as u32) << 24) | ((s[1] as u32) << 16) | ((s[2] as u32) << 8) | (s[3] as u32)) as u32
}

/// Writing a value big-endian and reading it back is the identity, in both
/// directions; in particular the two encodings of distinct values differ.
pub proof fn lemma_u32_be_bytes_round_trip()
    ensures
        forall|x: u32| #[trigger] spec_u32_to_be_bytes(x).len() == 4,
        forall|x: u32| spec_u32_from_be_bytes(#[trigger] spec_u32_to_be_bytes(x)) == x,
        forall|s: Seq<u8>| s.len() == 4 ==> spec_u32_to_be_bytes(
            #[trigger] spec_u32_from_be_bytes(s),
        ) == s,
{
    assert forall|x: u32| spec_u32_from_be_bytes(#[trigger] spec_u32_to_be_bytes(x)) == x by {
        let b0 = ((x >> 24) & 0xff) as u8;
        let b1 = ((x >> 16) & 0xff) as u8;
        let b2 = ((x >> 8) & 0xff) as u8;
        let b3 = (x & 0xff) as u8;
        assert((((b0 as u32) << 24) | ((b1 as u32) << 16) | ((b2 as u32) << 8) | (b3 as u32))
            == x) by (bit_vector)
            requires
                b0 == ((x >> 24) & 0xff) as u8,
                b1 == ((x >> 16) & 0xff) as u8,
                b2 == ((x >> 8) & 0xff) as u8,
                b3 == (x & 0xff) as u8,
        ;
    }
    assert forall|s: Seq<u8>| s.len() == 4 implies spec_u32_to_be_bytes(
        #[trigger] spec_u32_from_be_bytes(s),
    ) == s by {
        let x = spec_u32_from_be_bytes(s);
        let b0 = s[0];
        let b1 = s[1];
        let b2 = s[2];
        let b3 = s[3];
        assert(((x >> 24) & 0xff) as u8 == b0 && ((x >> 16) & 0xff) as u8 == b1 && ((x >> 8)
            & 0xff) as u8 == b2 && (x & 0xff) as u8 == b3) by (bit_vector)
            requires
                x == (((b0 as u32) << 24) | ((b1 as u32) << 16) | ((b2 as u32) << 8) | (
                b3 as u32)) as u32,
        ;
        assert(spec_u32_to_be_bytes(x) =~= s);
    }
}

/// Append the 4-byte big-endian encoding of `x` to `out`.
pub fn push_u32_be(out: &mut Vec<u8>, x: u32)
    ensures
        final(out)@ == old(out)@ + spec_u32_to_be_bytes(x),
{
    let b0 = ((x >> 24) & 0xff) as u8;
    let b1 = ((x >> 16) & 0xff) as u8;
    let b2 = ((x >> 8) & 0xff) as u8;
    let b3 = (x & 0xff) as u8;
    out.push(b0);
    out.push(b1);
    out.push(b2);
    out.push(b3);
    assert(out@ =~= old(out)@ + spec_u32_to_be_bytes(x));
}

/// Read a 32-bit value big-endian from `s` at offset `off`.
pub fn read_u32_be(s: &[u8], off: usize) -> (r: u32)
    requires
        off + 4 <= s@.len(),
    ensures
        r == spec_u32_from_be_bytes(s@.subrange(off as int, off as int + 4)),
{
    let n: usize = s.len();
    assert(off + 4 <= n);
    let b0 = *vstd::slice::slice_index_get(s, off);
    let b1 = *vstd::slice::slice_index_get(s, off + 1);
    let b2 = *vstd::slice::slice_index_get(s, off + 2);
    let b3 = *vstd::slice::slice_index_get(s, off + 3);
    let r = ((b0 as u32) << 24) | ((b1 as u32) << 16) | ((b2 as u32) << 8) | (b3 as u32);
    proof {
        let sub = s@.subrange(off as int, off as int + 4);
        assert(sub[0] == b0 && sub[1] == b1 && sub[2] == b2 && sub[3] == b3);
    }
    r
}

} // verus!
