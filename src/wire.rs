//! Pieces of the binary form of addresses: identifiers as their 32 bytes,
//! tags and variant indices as little-endian integers.
use crate::name::XorName;
use vstd::prelude::*;

verus! {

/// The eight bytes of `t`, least significant first.
pub open spec fn u64_le(t: u64) -> Seq<u8> {
    seq![
        t as u8,
        (t >> 8u64) as u8,
        (t >> 16u64) as u8,
        (t >> 24u64) as u8,
        (t >> 32u64) as u8,
        (t >> 40u64) as u8,
        (t >> 48u64) as u8,
        (t >> 56u64) as u8,
    ]
}

/// The four bytes of a variant index below 256, least significant first.
pub open spec fn variant_le(k: u8) -> Seq<u8> {
    seq![k, 0u8, 0u8, 0u8]
}

proof fn lemma_u64_from_bytes(t: u64)
    by (bit_vector)
    ensures
        t == ((t as u8) as u64) | (((t >> 8u64) as u8) as u64) << 8u64 | (((t >> 16u64) as u8) as u64)
            << 16u64 | (((t >> 24u64) as u8) as u64) << 24u64 | (((t >> 32u64) as u8) as u64)
            << 32u64 | (((t >> 40u64) as u8) as u64) << 40u64 | (((t >> 48u64) as u8) as u64)
            << 48u64 | (((t >> 56u64) as u8) as u64) << 56u64,
{
}

proof fn lemma_bytes_from_u64(b0: u8, b1: u8, b2: u8, b3: u8, b4: u8, b5: u8, b6: u8, b7: u8, t: u64)
    by (bit_vector)
    requires
        t == (b0 as u64) | (b1 as u64) << 8u64 | (b2 as u64) << 16u64 | (b3 as u64) << 24u64 | (
        b4 as u64) << 32u64 | (b5 as u64) << 40u64 | (b6 as u64) << 48u64 | (b7 as u64) << 56u64,
    ensures
        t as u8 == b0,
        (t >> 8u64) as u8 == b1,
        (t >> 16u64) as u8 == b2,
        (t >> 24u64) as u8 == b3,
        (t >> 32u64) as u8 == b4,
        (t >> 40u64) as u8 == b5,
        (t >> 48u64) as u8 == b6,
        (t >> 56u64) as u8 == b7,
{
}

/// Distinct integers have distinct little-endian bytes.
pub proof fn lemma_u64_le_injective(s: u64, t: u64)
    requires
        u64_le(s) == u64_le(t),
    ensures
        s == t,
{
    lemma_u64_from_bytes(s);
    lemma_u64_from_bytes(t);
    assert(u64_le(s)[0] == u64_le(t)[0]);
    assert(u64_le(s)[1] == u64_le(t)[1]);
    assert(u64_le(s)[2] == u64_le(t)[2]);
    assert(u64_le(s)[3] == u64_le(t)[3]);
    assert(u64_le(s)[4] == u64_le(t)[4]);
    assert(u64_le(s)[5] == u64_le(t)[5]);
    assert(u64_le(s)[6] == u64_le(t)[6]);
    assert(u64_le(s)[7] == u64_le(t)[7]);
}

/// Appends the four bytes of variant index `k`.
pub fn push_variant(out: &mut Vec<u8>, k: u8)
    ensures
        final(out)@ == old(out)@ + variant_le(k),
{
    out.push(k);
    out.push(0);
    out.push(0);
    out.push(0);
    assert(final(out)@ =~= old(out)@ + variant_le(k));
}

/// Appends the 32 bytes of `n`.
pub fn push_name(out: &mut Vec<u8>, n: &XorName)
    ensures
        final(out)@ == old(out)@ + n.bytes(),
{
    let ghost start = out@;
    let mut i: usize = 0;
    while i < 32
        invariant
            i <= 32,
            n.bytes().len() == 32,
            out@ == start + n.bytes().take(i as int),
        decreases 32 - i,
    {
        out.push(n.0[i]);
        assert(out@ =~= start + n.bytes().take(i + 1));
        i += 1;
    }
    assert(n.bytes().take(32) =~= n.bytes());
}

/// Appends the eight bytes of `t`, least significant first.
pub fn push_u64_le(out: &mut Vec<u8>, t: u64)
    ensures
        final(out)@ == old(out)@ + u64_le(t),
{
    out.push(t as u8);
    out.push((t >> 8u64) as u8);
    out.push((t >> 16u64) as u8);
    out.push((t >> 24u64) as u8);
    out.push((t >> 32u64) as u8);
    out.push((t >> 40u64) as u8);
    out.push((t >> 48u64) as u8);
    out.push((t >> 56u64) as u8);
    assert(final(out)@ =~= old(out)@ + u64_le(t));
}

/// The identifier held in the 32 bytes from `start` on.
pub fn read_name(bytes: &Vec<u8>, start: usize) -> (n: XorName)
    requires
        start + 32 <= bytes@.len(),
    ensures
        n.bytes() == bytes@.subrange(start as int, start + 32),
{
    let len: usize = bytes.len();
    let mut arr: [u8; 32] = [0u8; 32];
    let mut i: usize = 0;
    while i < 32
        invariant
            i <= 32,
            len == bytes@.len(),
            start + 32 <= bytes@.len(),
            forall|k: int| 0 <= k < i ==> arr@[k] == bytes@[start + k],
        decreases 32 - i,
    {
        arr[i] = bytes[start + i];
        i += 1;
    }
    let n = XorName(arr);
    assert(n.bytes() =~= bytes@.subrange(start as int, start + 32));
    n
}

/// The integer whose little-endian bytes are the eight from `start` on.
pub fn read_u64_le(bytes: &Vec<u8>, start: usize) -> (t: u64)
    requires
        start + 8 <= bytes@.len(),
    ensures
        u64_le(t) == bytes@.subrange(start as int, start + 8),
{
    let len: usize = bytes.len();
    let b0 = bytes[start];
    let b1 = bytes[start + 1];
    let b2 = bytes[start + 2];
    let b3 = bytes[start + 3];
    let b4 = bytes[start + 4];
    let b5 = bytes[start + 5];
    let b6 = bytes[start + 6];
    let b7 = bytes[start + 7];
    let t: u64 = (b0 as u64) | (b1 as u64) << 8u64 | (b2 as u64) << 16u64 | (b3 as u64) << 24u64 | (
    b4 as u64) << 32u64 | (b5 as u64) << 40u64 | (b6 as u64) << 48u64 | (b7 as u64) << 56u64;
    proof {
        lemma_bytes_from_u64(b0, b1, b2, b3, b4, b5, b6, b7, t);
    }
    assert(u64_le(t) =~= bytes@.subrange(start as int, start + 8));
    t
}

} // verus!
