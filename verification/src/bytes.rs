//! Little-endian integer encoding over byte sequences.

use vstd::prelude::*;

verus! {

/// The little-endian `u16` stored at `off` in `d`.
pub open spec fn spec_u16_le(d: Seq<u8>, off: int) -> u16 {
    (d[off] as int + d[off + 1] as int * 256) as u16
}

/// The little-endian `u32` stored at `off` in `d`.
pub open spec fn spec_u32_le(d: Seq<u8>, off: int) -> u32 {
    (d[off] as int + d[off + 1] as int * 256 + d[off + 2] as int * 0x1_0000 + d[off + 3] as int
        * 0x100_0000) as u32
}

/// The four little-endian bytes of `x`.
pub open spec fn le32(x: u32) -> Seq<u8> {
    seq![
        (x % 256) as u8,
        ((x / 256) % 256) as u8,
        ((x / 0x1_0000) % 256) as u8,
        (x / 0x100_0000) as u8,
    ]
}

/// The two little-endian bytes of `x`.
pub open spec fn le16(x: u16) -> Seq<u8> {
    seq![(x % 256) as u8, (x / 256) as u8]
}

/// Decoding the encoding of `x` gives `x` back, wherever it is placed.
pub proof fn lemma_le32_roundtrip(d: Seq<u8>, off: int, x: u32)
    requires
        0 <= off,
        off + 4 <= d.len(),
        d.subrange(off, off + 4) == le32(x),
    ensures
        spec_u32_le(d, off) == x,
{
    assert(d[off] == le32(x)[0]);
    assert(d[off + 1] == le32(x)[1]);
    assert(d[off + 2] == le32(x)[2]);
    assert(d[off + 3] == le32(x)[3]);
    let a = x % 256;
    let b = (x / 256) % 256;
    let c = (x / 0x1_0000) % 256;
    let e = x / 0x100_0000;
    assert(x == a + b * 256 + c * 0x1_0000 + e * 0x100_0000) by (nonlinear_arith)
        requires
            a == x % 256,
            b == (x / 256) % 256,
            c == (x / 0x1_0000) % 256,
            e == x / 0x100_0000,
    ;
}

/// Decoding the encoding of `x` gives `x` back, wherever it is placed.
pub proof fn lemma_le16_roundtrip(d: Seq<u8>, off: int, x: u16)
    requires
        0 <= off,
        off + 2 <= d.len(),
        d.subrange(off, off + 2) == le16(x),
    ensures
        spec_u16_le(d, off) == x,
{
    assert(d[off] == le16(x)[0]);
    assert(d[off + 1] == le16(x)[1]);
}

/// Two sequences that agree on four bytes decode to the same `u32` there.
pub proof fn lemma_u32_le_frame(d1: Seq<u8>, d2: Seq<u8>, off: int)
    requires
        0 <= off,
        off + 4 <= d1.len(),
        off + 4 <= d2.len(),
        forall|i: int| off <= i < off + 4 ==> d1[i] == d2[i],
    ensures
        spec_u32_le(d1, off) == spec_u32_le(d2, off),
{
    assert(d1[off] == d2[off]);
    assert(d1[off + 1] == d2[off + 1]);
    assert(d1[off + 2] == d2[off + 2]);
    assert(d1[off + 3] == d2[off + 3]);
}

/// Reads the little-endian `u32` at `off`.
pub fn read_u32_le(d: &[u8], off: usize) -> (r: u32)
    requires
        off + 4 <= d@.len(),
    ensures
        r == spec_u32_le(d@, off as int),
{
    let b0 = d[off] as u32;
    let b1 = d[off + 1] as u32;
    let b2 = d[off + 2] as u32;
    let b3 = d[off + 3] as u32;
    b0 + b1 * 256 + b2 * 0x1_0000 + b3 * 0x100_0000
}

/// Reads the little-endian `u16` at `off`.
pub fn read_u16_le(d: &[u8], off: usize) -> (r: u16)
    requires
        off + 2 <= d@.len(),
    ensures
        r == spec_u16_le(d@, off as int),
{
    let b0 = d[off] as u16;
    let b1 = d[off + 1] as u16;
    b0 + b1 * 256
}

/// Appends the four little-endian bytes of `x`.
pub fn push_u32_le(v: &mut Vec<u8>, x: u32)
    ensures
        final(v)@ == old(v)@ + le32(x),
{
    v.push((x % 256) as u8);
    v.push(((x / 256) % 256) as u8);
    v.push(((x / 0x1_0000) % 256) as u8);
    v.push((x / 0x100_0000) as u8);
    assert(final(v)@ =~= old(v)@ + le32(x));
}

/// Appends the two little-endian bytes of `x`.
pub fn push_u16_le(v: &mut Vec<u8>, x: u16)
    ensures
        final(v)@ == old(v)@ + le16(x),
{
    v.push((x % 256) as u8);
    v.push((x / 256) as u8);
    assert(final(v)@ =~= old(v)@ + le16(x));
}

/// Overwrites the four bytes at `off` with the little-endian bytes of `x`.
pub fn write_u32_le(v: &mut Vec<u8>, off: usize, x: u32)
    requires
        off + 4 <= old(v)@.len(),
    ensures
        final(v)@.len() == old(v)@.len(),
        final(v)@.subrange(off as int, off + 4) == le32(x),
        forall|i: int|
            0 <= i < old(v)@.len() && !(off <= i < off + 4) ==> #[trigger] final(v)@[i] == old(
                v,
            )@[i],
{
    let n = v.len();
    assert(off + 4 <= n);
    v.set(off, (x % 256) as u8);
    v.set(off + 1, ((x / 256) % 256) as u8);
    v.set(off + 2, ((x / 0x1_0000) % 256) as u8);
    v.set(off + 3, (x / 0x100_0000) as u8);
    assert(final(v)@.subrange(off as int, off + 4) =~= le32(x));
}

/// Appends the bytes of `b`.
pub fn push_bytes(v: &mut Vec<u8>, b: &[u8])
    ensures
        final(v)@ == old(v)@ + b@,
{
    let ghost start = v@;
    let mut i: usize = 0;
    while i < b.len()
        invariant
            i <= b@.len(),
            v@ == start + b@.subrange(0, i as int),
        decreases b@.len() - i,
    {
        v.push(b[i]);
        i = i + 1;
        assert(v@ =~= start + b@.subrange(0, i as int));
    }
    assert(b@.subrange(0, b@.len() as int) =~= b@);
}

} // verus!
