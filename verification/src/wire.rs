//! Fixed-width integers in network byte order, and byte ranges.

use vstd::prelude::*;

verus! {

/// The integer whose big-endian octets are `hi`, `lo`.
pub open spec fn be16(hi: u8, lo: u8) -> u16 {
    (hi as int * 256 + lo as int) as u16
}

/// The integer whose big-endian octets are `b0` (most significant) to `b3`.
pub open spec fn be32(b0: u8, b1: u8, b2: u8, b3: u8) -> u32 {
    (b0 as int * 16777216 + b1 as int * 65536 + b2 as int * 256 + b3 as int) as u32
}

/// The 16-bit integer stored at `at` and `at + 1`.
pub open spec fn read_u16(buf: Seq<u8>, at: int) -> u16 {
    be16(buf[at], buf[at + 1])
}

/// The 32-bit integer stored at `at` to `at + 3`.
pub open spec fn read_u32(buf: Seq<u8>, at: int) -> u32 {
    be32(buf[at], buf[at + 1], buf[at + 2], buf[at + 3])
}

/// The two octets of `v`, most significant first.
pub open spec fn u16_bytes(v: u16) -> Seq<u8> {
    seq![(v / 256) as u8, (v % 256) as u8]
}

/// The four octets of `v`, most significant first.
pub open spec fn u32_bytes(v: u32) -> Seq<u8> {
    seq![
        (v / 16777216) as u8,
        ((v / 65536) % 256) as u8,
        ((v / 256) % 256) as u8,
        (v % 256) as u8,
    ]
}

/// Reading back what `u16_bytes` wrote gives the value written.
pub proof fn lemma_u16_round_trip(buf: Seq<u8>, at: int, v: u16)
    requires
        0 <= at,
        at + 2 <= buf.len(),
        buf.subrange(at, at + 2) == u16_bytes(v),
    ensures
        read_u16(buf, at) == v,
{
    let s = buf.subrange(at, at + 2);
    assert(s[0] == buf[at] && s[1] == buf[at + 1]);
    assert(u16_bytes(v)[0] == (v / 256) as u8 && u16_bytes(v)[1] == (v % 256) as u8);
}

/// Reading back what `u32_bytes` wrote gives the value written.
pub proof fn lemma_u32_round_trip(buf: Seq<u8>, at: int, v: u32)
    requires
        0 <= at,
        at + 4 <= buf.len(),
        buf.subrange(at, at + 4) == u32_bytes(v),
    ensures
        read_u32(buf, at) == v,
{
    let s = buf.subrange(at, at + 4);
    assert(s[0] == buf[at] && s[1] == buf[at + 1] && s[2] == buf[at + 2] && s[3] == buf[at + 3]);
    let w = u32_bytes(v);
    assert(w[0] == (v / 16777216) as u8 && w[1] == ((v / 65536) % 256) as u8 && w[2] == ((v / 256)
        % 256) as u8 && w[3] == (v % 256) as u8);
}

/// Reads a big-endian 16-bit integer.
pub fn get_u16(buf: &[u8], at: usize) -> (v: u16)
    requires
        at + 2 <= buf.len(),
    ensures
        v == read_u16(buf@, at as int),
{
    (buf[at] as u16) * 256 + (buf[at + 1] as u16)
}

/// Reads a big-endian 32-bit integer.
pub fn get_u32(buf: &[u8], at: usize) -> (v: u32)
    requires
        at + 4 <= buf.len(),
    ensures
        v == read_u32(buf@, at as int),
{
    (buf[at] as u32) * 16777216 + (buf[at + 1] as u32) * 65536 + (buf[at + 2] as u32) * 256 + (
    buf[at + 3] as u32)
}

/// Appends `v` as two octets, most significant first.
pub fn put_u16(out: &mut Vec<u8>, v: u16)
    ensures
        final(out)@ == old(out)@ + u16_bytes(v),
{
    out.push((v / 256) as u8);
    out.push((v % 256) as u8);
    assert(out@ =~= old(out)@ + u16_bytes(v));
}

/// Appends `v` as four octets, most significant first.
pub fn put_u32(out: &mut Vec<u8>, v: u32)
    ensures
        final(out)@ == old(out)@ + u32_bytes(v),
{
    out.push((v / 16777216) as u8);
    out.push(((v / 65536) % 256) as u8);
    out.push(((v / 256) % 256) as u8);
    out.push((v % 256) as u8);
    assert(out@ =~= old(out)@ + u32_bytes(v));
}

/// Appends the octets of `src`.
pub fn put_bytes(out: &mut Vec<u8>, src: &[u8])
    ensures
        final(out)@ == old(out)@ + src@,
{
    let mut i: usize = 0;
    while i < src.len()
        invariant
            i <= src.len(),
            out@ == old(out)@ + src@.subrange(0, i as int),
        decreases src.len() - i,
    {
        out.push(src[i]);
        i = i + 1;
        assert(out@ =~= old(out)@ + src@.subrange(0, i as int));
    }
    assert(src@.subrange(0, src.len() as int) =~= src@);
}

/// A copy of the octets of `buf` from `from` up to, not including, `to`.
pub fn copy_range(buf: &[u8], from: usize, to: usize) -> (r: Vec<u8>)
    requires
        from <= to <= buf.len(),
    ensures
        r@ == buf@.subrange(from as int, to as int),
{
    let mut r: Vec<u8> = Vec::new();
    let mut i: usize = from;
    while i < to
        invariant
            from <= i <= to <= buf.len(),
            r@ == buf@.subrange(from as int, i as int),
        decreases to - i,
    {
        r.push(buf[i]);
        i = i + 1;
        assert(r@ =~= buf@.subrange(from as int, i as int));
    }
    r
}

/// Whether two byte strings hold the same octets.
pub fn same_bytes(a: &[u8], b: &[u8]) -> (r: bool)
    ensures
        r == (a@ == b@),
{
    if a.len() != b.len() {
        return false;
    }
    let mut i: usize = 0;
    while i < a.len()
        invariant
            i <= a.len(),
            a.len() == b.len(),
            a@.subrange(0, i as int) == b@.subrange(0, i as int),
        decreases a.len() - i,
    {
        if a[i] != b[i] {
            return false;
        }
        i = i + 1;
        assert(a@.subrange(0, i as int) =~= a@.subrange(0, i - 1).push(a@[i - 1]));
        assert(b@.subrange(0, i as int) =~= b@.subrange(0, i - 1).push(b@[i - 1]));
    }
    assert(a@ =~= a@.subrange(0, a.len() as int));
    assert(b@ =~= b@.subrange(0, b.len() as int));
    true
}

} // verus!
