use vstd::prelude::*;

verus! {

/// Little-endian image of a 16-bit value as two bytes.
pub open spec fn le16(x: u16) -> Seq<u8> {
    seq![(x % 256) as u8, (x / 256) as u8]
}

/// Little-endian image of a 32-bit value as four bytes.
pub open spec fn le32(x: u32) -> Seq<u8> {
    seq![
        (x % 256) as u8,
        ((x / 256) % 256) as u8,
        ((x / 65536) % 256) as u8,
        (x / 16777216) as u8,
    ]
}

/// The 16-bit value read little-endian from `s` at position `i`.
pub open spec fn rd16(s: Seq<u8>, i: int) -> int {
    s[i] + 256 * s[i + 1]
}

/// The 32-bit value read little-endian from `s` at position `i`.
pub open spec fn rd32(s: Seq<u8>, i: int) -> int {
    s[i] + 256 * s[i + 1] + 65536 * s[i + 2] + 16777216 * s[i + 3]
}

/// Reading back the two bytes of `le16` yields the value written.
pub proof fn lemma_le16_rd(x: u16)
    ensures
        rd16(le16(x), 0) == x,
        0 <= rd16(le16(x), 0) <= u16::MAX,
{
}

/// Reading back the four bytes of `le32` yields the value written.
pub proof fn lemma_le32_rd(x: u32)
    ensures
        rd32(le32(x), 0) == x,
        0 <= rd32(le32(x), 0) <= u32::MAX,
{
    assert(x % 256 + 256 * ((x / 256) % 256) + 65536 * ((x / 65536) % 256) + 16777216 * (x
        / 16777216) == x) by (bit_vector);
}

/// Reads within a window of a larger sequence agree with reads of the window.
pub proof fn lemma_rd_in_window(s: Seq<u8>, lo: int, hi: int, i: int)
    requires
        0 <= lo <= hi <= s.len(),
        0 <= i,
    ensures
        i + 2 <= hi - lo ==> rd16(s, lo + i) == rd16(s.subrange(lo, hi), i),
        i + 4 <= hi - lo ==> rd32(s, lo + i) == rd32(s.subrange(lo, hi), i),
{
}

/// Append a 16-bit value in little-endian order.
pub fn push_u16(v: &mut Vec<u8>, x: u16)
    ensures
        final(v)@ == old(v)@ + le16(x),
{
    v.push((x % 256) as u8);
    v.push((x / 256) as u8);
    proof {
        assert(v@ =~= old(v)@ + le16(x));
    }
}

/// Append a 32-bit value in little-endian order.
pub fn push_u32(v: &mut Vec<u8>, x: u32)
    ensures
        final(v)@ == old(v)@ + le32(x),
{
    v.push((x % 256) as u8);
    v.push(((x / 256) % 256) as u8);
    v.push(((x / 65536) % 256) as u8);
    v.push((x / 16777216) as u8);
    proof {
        assert(v@ =~= old(v)@ + le32(x));
    }
}

/// Append a run of bytes.
pub fn push_bytes(v: &mut Vec<u8>, s: &[u8])
    ensures
        final(v)@ == old(v)@ + s@,
{
    let n = s.len();
    let mut i: usize = 0;
    while i < n
        invariant
            i <= n,
            n == s@.len(),
            v@ == old(v)@ + s@.subrange(0, i as int),
        decreases n - i,
    {
        let b = s[i];
        v.push(b);
        i = i + 1;
        proof {
            assert(v@ =~= old(v)@ + s@.subrange(0, i as int));
        }
    }
    proof {
        assert(v@ =~= old(v)@ + s@);
    }
}

/// Read a 16-bit little-endian value from a byte slice.
pub fn read_u16(s: &[u8], i: usize) -> (r: u16)
    requires
        i + 2 <= s@.len(),
    ensures
        r == rd16(s@, i as int),
{
    let lo = s[i];
    let hi = s[i + 1];
    lo as u16 + 256 * (hi as u16)
}

/// Read a 32-bit little-endian value from a byte slice.
pub fn read_u32(s: &[u8], i: usize) -> (r: u32)
    requires
        i + 4 <= s@.len(),
    ensures
        r == rd32(s@, i as int),
{
    let b0 = s[i] as u32;
    let b1 = s[i + 1] as u32;
    let b2 = s[i + 2] as u32;
    let b3 = s[i + 3] as u32;
    b0 + 256 * b1 + 65536 * b2 + 16777216 * b3
}

} // verus!
