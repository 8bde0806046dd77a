//! Big-endian encoding of integers, and small byte-buffer helpers.

use vstd::prelude::*;

verus! {

/// The two bytes of `x`, most significant first.
pub open spec fn u16_be(x: u16) -> Seq<u8> {
    seq![(x / 0x100) as u8, (x % 0x100) as u8]
}

/// The integer whose big-endian bytes are `hi`, `lo`.
pub open spec fn u16_of(hi: u8, lo: u8) -> u16 {
    (hi * 0x100 + lo) as u16
}

/// The four bytes of `x`, most significant first.
pub open spec fn u32_be(x: u32) -> Seq<u8> {
    seq![
        (x / 0x100_0000) as u8,
        ((x / 0x1_0000) % 0x100) as u8,
        ((x / 0x100) % 0x100) as u8,
        (x % 0x100) as u8,
    ]
}

/// The integer whose big-endian bytes are `s[0..4]`.
pub open spec fn u32_of(s: Seq<u8>) -> u32 {
    (s[0] * 0x100_0000 + s[1] * 0x1_0000 + s[2] * 0x100 + s[3]) as u32
}

/// The eight bytes of `x`, most significant first.
pub open spec fn u64_be(x: u64) -> Seq<u8> {
    u32_be((x / 0x1_0000_0000) as u32) + u32_be((x % 0x1_0000_0000) as u32)
}

/// The integer whose big-endian bytes are `s[0..8]`.
pub open spec fn u64_of(s: Seq<u8>) -> u64 {
    (u32_of(s.subrange(0, 4)) * 0x1_0000_0000 + u32_of(s.subrange(4, 8))) as u64
}

pub proof fn lemma_u16_roundtrip(x: u16)
    ensures
        u16_be(x).len() == 2,
        u16_of(u16_be(x)[0], u16_be(x)[1]) == x,
{
}

pub proof fn lemma_u16_of_bytes(hi: u8, lo: u8)
    ensures
        u16_be(u16_of(hi, lo)) == seq![hi, lo],
{
    assert(u16_be(u16_of(hi, lo)) =~= seq![hi, lo]);
}

pub proof fn lemma_u32_roundtrip(x: u32)
    ensures
        u32_be(x).len() == 4,
        u32_of(u32_be(x)) == x,
{
}

pub proof fn lemma_u32_of_bytes(s: Seq<u8>)
    requires
        s.len() == 4,
    ensures
        u32_be(u32_of(s)) == s,
{
    let a = s[0] as int;
    let b = s[1] as int;
    let c = s[2] as int;
    let d = s[3] as int;
    let x = a * 0x100_0000 + b * 0x1_0000 + c * 0x100 + d;
    assert(x / 0x100_0000 == a && (x / 0x1_0000) % 0x100 == b && (x / 0x100) % 0x100 == c
        && x % 0x100 == d) by (nonlinear_arith)
        requires
            0 <= a < 256,
            0 <= b < 256,
            0 <= c < 256,
            0 <= d < 256,
            x == a * 0x100_0000 + b * 0x1_0000 + c * 0x100 + d,
    ;
    assert(u32_of(s) == x);
    assert(u32_be(u32_of(s)) =~= s);
}

pub proof fn lemma_u64_roundtrip(x: u64)
    ensures
        u64_be(x).len() == 8,
        u64_of(u64_be(x)) == x,
{
    let hi = (x / 0x1_0000_0000) as u32;
    let lo = (x % 0x1_0000_0000) as u32;
    lemma_u32_roundtrip(hi);
    lemma_u32_roundtrip(lo);
    assert(u64_be(x).subrange(0, 4) =~= u32_be(hi));
    assert(u64_be(x).subrange(4, 8) =~= u32_be(lo));
}

pub proof fn lemma_u64_of_bytes(s: Seq<u8>)
    requires
        s.len() == 8,
    ensures
        u64_be(u64_of(s)) == s,
{
    let a = s.subrange(0, 4);
    let b = s.subrange(4, 8);
    lemma_u32_of_bytes(a);
    lemma_u32_of_bytes(b);
    let x = u64_of(s);
    assert(x / 0x1_0000_0000 == u32_of(a) && x % 0x1_0000_0000 == u32_of(b));
    assert(u64_be(x) =~= a + b);
    assert(a + b =~= s);
}

/// Appends the big-endian bytes of `x`.
pub fn push_u16_be(v: &mut Vec<u8>, x: u16)
    ensures
        final(v)@ == old(v)@ + u16_be(x),
{
    v.push((x / 0x100) as u8);
    v.push((x % 0x100) as u8);
    assert(final(v)@ =~= old(v)@ + u16_be(x));
}

/// Appends the big-endian bytes of `x`.
pub fn push_u32_be(v: &mut Vec<u8>, x: u32)
    ensures
        final(v)@ == old(v)@ + u32_be(x),
{
    v.push((x / 0x100_0000) as u8);
    v.push(((x / 0x1_0000) % 0x100) as u8);
    v.push(((x / 0x100) % 0x100) as u8);
    v.push((x % 0x100) as u8);
    assert(final(v)@ =~= old(v)@ + u32_be(x));
}

/// Appends the big-endian bytes of `x`.
pub fn push_u64_be(v: &mut Vec<u8>, x: u64)
    ensures
        final(v)@ == old(v)@ + u64_be(x),
{
    let ghost v0 = v@;
    push_u32_be(v, (x / 0x1_0000_0000) as u32);
    push_u32_be(v, (x % 0x1_0000_0000) as u32);
    assert(final(v)@ =~= v0 + u64_be(x));
}

/// Appends every byte of `s`.
pub fn push_all(v: &mut Vec<u8>, s: &[u8])
    ensures
        final(v)@ == old(v)@ + s@,
{
    let ghost v0 = v@;
    let mut i: usize = 0;
    while i < s.len()
        invariant
            0 <= i <= s@.len(),
            v@ == v0 + s@.subrange(0, i as int),
        decreases s@.len() - i,
    {
        v.push(s[i]);
        i = i + 1;
        assert(v@ =~= v0 + s@.subrange(0, i as int));
    }
    assert(s@.subrange(0, s@.len() as int) =~= s@);
}

/// The bytes `b[lo..hi]` as a new vector.
pub fn copy_range(b: &[u8], lo: usize, hi: usize) -> (r: Vec<u8>)
    requires
        lo <= hi <= b@.len(),
    ensures
        r@ == b@.subrange(lo as int, hi as int),
{
    let mut r: Vec<u8> = Vec::new();
    let mut i: usize = lo;
    while i < hi
        invariant
            lo <= i <= hi <= b@.len(),
            r@ == b@.subrange(lo as int, i as int),
        decreases hi - i,
    {
        r.push(b[i]);
        i = i + 1;
        assert(r@ =~= b@.subrange(lo as int, i as int));
    }
    r
}

/// The big-endian integer in `b[i..i + 2]`.
pub fn read_u16_be(b: &[u8], i: usize) -> (r: u16)
    requires
        i + 2 <= b@.len(),
    ensures
        r == u16_of(b@[i as int], b@[i + 1]),
{
    (b[i] as u16) * 0x100 + (b[i + 1] as u16)
}

/// The big-endian integer in `b[i..i + 4]`.
pub fn read_u32_be(b: &[u8], i: usize) -> (r: u32)
    requires
        i + 4 <= b@.len(),
    ensures
        r == u32_of(b@.subrange(i as int, i + 4)),
{
    (b[i] as u32) * 0x100_0000 + (b[i + 1] as u32) * 0x1_0000 + (b[i + 2] as u32) * 0x100
        + (b[i + 3] as u32)
}

/// The big-endian integer in `b[i..i + 8]`.
pub fn read_u64_be(b: &[u8], i: usize) -> (r: u64)
    requires
        i + 8 <= b@.len(),
    ensures
        r == u64_of(b@.subrange(i as int, i + 8)),
{
    let n = b.len();
    let hi = read_u32_be(b, i);
    let j: usize = i + 4;
    let lo = read_u32_be(b, j);
    assert(b@.subrange(i as int, i + 8).subrange(0, 4) =~= b@.subrange(i as int, i + 4));
    assert(b@.subrange(i as int, i + 8).subrange(4, 8) =~= b@.subrange(i + 4, i + 8));
    (hi as u64) * 0x1_0000_0000 + (lo as u64)
}

} // verus!
