//! Little-endian integers in byte sequences.
use vstd::prelude::*;

verus! {

pub open spec fn u16_at(s: Seq<u8>, at: int) -> u16 {
    (s[at] + 0x100 * s[at + 1]) as u16
}

pub open spec fn u32_at(s: Seq<u8>, at: int) -> u32 {
    (s[at] + 0x100 * s[at + 1] + 0x1_0000 * s[at + 2] + 0x100_0000 * s[at + 3]) as u32
}

pub open spec fn u64_at(s: Seq<u8>, at: int) -> u64 {
    (u32_at(s, at) + 0x1_0000_0000 * u32_at(s, at + 4)) as u64
}

pub open spec fn u16_bytes(x: u16) -> Seq<u8> {
    seq![(x % 0x100) as u8, (x / 0x100) as u8]
}

pub open spec fn u32_bytes(x: u32) -> Seq<u8> {
    seq![
        (x % 0x100) as u8,
        (x / 0x100 % 0x100) as u8,
        (x / 0x1_0000 % 0x100) as u8,
        (x / 0x100_0000) as u8,
    ]
}

pub open spec fn u64_bytes(x: u64) -> Seq<u8> {
    u32_bytes((x % 0x1_0000_0000) as u32) + u32_bytes((x / 0x1_0000_0000) as u32)
}

/// The two's complement pattern of a signed number.
pub open spec fn i32_bits(x: i32) -> u32 {
    if x >= 0 {
        x as u32
    } else {
        (x + 0x1_0000_0000) as u32
    }
}

/// The signed number that a two's complement pattern stands for.
pub open spec fn i32_of_bits(x: u32) -> i32 {
    if x < 0x8000_0000 {
        x as i32
    } else {
        (x - 0x1_0000_0000) as i32
    }
}

/// The two's complement pattern of a signed number.
pub open spec fn i64_bits(x: i64) -> u64 {
    if x >= 0 {
        x as u64
    } else {
        (x + 0x1_0000_0000_0000_0000) as u64
    }
}

pub open spec fn i32_bytes(x: i32) -> Seq<u8> {
    u32_bytes(i32_bits(x))
}

pub open spec fn i64_bytes(x: i64) -> Seq<u8> {
    u64_bytes(i64_bits(x))
}

/// `n` zero bytes.
pub open spec fn zeros(n: nat) -> Seq<u8> {
    Seq::new(n, |i: int| 0u8)
}

/// `s` with the bytes from position `at` on replaced by `b`.
pub open spec fn splice(s: Seq<u8>, at: int, b: Seq<u8>) -> Seq<u8> {
    Seq::new(s.len(), |i: int| if at <= i < at + b.len() { b[i - at] } else { s[i] })
}

/// The first `n` bytes of `s`, or all of it where it is shorter.
pub open spec fn clipped(s: Seq<u8>, n: int) -> Seq<u8> {
    if s.len() <= n {
        s
    } else {
        s.take(n)
    }
}

/// A number read where its bytes stand is that number.
pub proof fn lemma_read_back_u16(s: Seq<u8>, at: int, x: u16)
    requires
        0 <= at,
        at + 2 <= s.len(),
        s.subrange(at, at + 2) == u16_bytes(x),
    ensures
        u16_at(s, at) == x,
{
    let b = s.subrange(at, at + 2);
    assert(b[0] == s[at] && b[1] == s[at + 1]);
}

/// A number read where its bytes stand is that number.
pub proof fn lemma_read_back_u32(s: Seq<u8>, at: int, x: u32)
    requires
        0 <= at,
        at + 4 <= s.len(),
        s.subrange(at, at + 4) == u32_bytes(x),
    ensures
        u32_at(s, at) == x,
{
    let b = s.subrange(at, at + 4);
    assert(b[0] == s[at] && b[1] == s[at + 1] && b[2] == s[at + 2] && b[3] == s[at + 3]);
}

/// A number read where its bytes stand is that number.
pub proof fn lemma_read_back_u64(s: Seq<u8>, at: int, x: u64)
    requires
        0 <= at,
        at + 8 <= s.len(),
        s.subrange(at, at + 8) == u64_bytes(x),
    ensures
        u64_at(s, at) == x,
{
    let lo = (x % 0x1_0000_0000) as u32;
    let hi = (x / 0x1_0000_0000) as u32;
    let b = s.subrange(at, at + 8);
    assert(s.subrange(at, at + 4) =~= b.subrange(0, 4));
    assert(b.subrange(0, 4) =~= u32_bytes(lo));
    assert(s.subrange(at + 4, at + 8) =~= b.subrange(4, 8));
    assert(b.subrange(4, 8) =~= u32_bytes(hi));
    lemma_read_back_u32(s, at, lo);
    lemma_read_back_u32(s, at + 4, hi);
}

/// The bytes of the number read at a place are the bytes that stand there.
#[verifier::spinoff_prover]
#[verifier::rlimit(30)]
pub proof fn lemma_write_back_u32(s: Seq<u8>, at: int)
    requires
        0 <= at,
        at + 4 <= s.len(),
    ensures
        u32_bytes(u32_at(s, at)) == s.subrange(at, at + 4),
{
    let x = u32_at(s, at);
    let (a, b, c, d) = (s[at] as int, s[at + 1] as int, s[at + 2] as int, s[at + 3] as int);
    assert(x == a + 256 * b + 65536 * c + 16777216 * d);
    assert(x % 256 == a && (x / 256) % 256 == b && (x / 65536) % 256 == c && x / 16777216 == d);
    let r = u32_bytes(x);
    let t = s.subrange(at, at + 4);
    assert(r[0] == t[0] && r[1] == t[1] && r[2] == t[2] && r[3] == t[3]);
    assert(r =~= t);
}

/// A signed number is the one that its pattern stands for.
pub proof fn lemma_signed_patterns(x: i32)
    ensures
        i32_of_bits(i32_bits(x)) == x,
{
}

pub fn bits_of_i32(x: i32) -> (r: u32)
    ensures
        r == i32_bits(x),
{
    if x >= 0 {
        x as u32
    } else {
        (x as i64 + 0x1_0000_0000) as u32
    }
}

pub fn i32_from_bits(x: u32) -> (r: i32)
    ensures
        r == i32_of_bits(x),
{
    if x < 0x8000_0000 {
        x as i32
    } else {
        (x as i64 - 0x1_0000_0000) as i32
    }
}

pub fn bits_of_i64(x: i64) -> (r: u64)
    ensures
        r == i64_bits(x),
{
    if x >= 0 {
        x as u64
    } else {
        (x as i128 + 0x1_0000_0000_0000_0000) as u64
    }
}

pub fn read_u16(s: &[u8], at: usize) -> (r: u16)
    requires
        at + 2 <= s@.len(),
    ensures
        r == u16_at(s@, at as int),
{
    s[at] as u16 + 0x100 * s[at + 1] as u16
}

pub fn read_u32(s: &[u8], at: usize) -> (r: u32)
    requires
        at + 4 <= s@.len(),
    ensures
        r == u32_at(s@, at as int),
{
    s[at] as u32 + 0x100 * s[at + 1] as u32 + 0x1_0000 * s[at + 2] as u32 + 0x100_0000
        * s[at + 3] as u32
}

pub fn read_u64(s: &[u8], at: usize) -> (r: u64)
    requires
        at + 8 <= s@.len(),
    ensures
        r == u64_at(s@, at as int),
{
    let n: usize = s.len();
    assert(at + 8 <= n);
    read_u32(s, at) as u64 + 0x1_0000_0000 * read_u32(s, at + 4) as u64
}

pub fn push_u16(out: &mut Vec<u8>, x: u16)
    ensures
        final(out)@ == old(out)@ + u16_bytes(x),
{
    out.push((x % 0x100) as u8);
    out.push((x / 0x100) as u8);
    assert(out@ =~= old(out)@ + u16_bytes(x));
}

pub fn push_u32(out: &mut Vec<u8>, x: u32)
    ensures
        final(out)@ == old(out)@ + u32_bytes(x),
{
    out.push((x % 0x100) as u8);
    out.push((x / 0x100 % 0x100) as u8);
    out.push((x / 0x1_0000 % 0x100) as u8);
    out.push((x / 0x100_0000) as u8);
    assert(out@ =~= old(out)@ + u32_bytes(x));
}

pub fn push_u64(out: &mut Vec<u8>, x: u64)
    ensures
        final(out)@ == old(out)@ + u64_bytes(x),
{
    push_u32(out, (x % 0x1_0000_0000) as u32);
    push_u32(out, (x / 0x1_0000_0000) as u32);
    assert(out@ =~= old(out)@ + u64_bytes(x));
}

pub fn push_i32(out: &mut Vec<u8>, x: i32)
    ensures
        final(out)@ == old(out)@ + i32_bytes(x),
{
    push_u32(out, bits_of_i32(x));
}

pub fn push_i64(out: &mut Vec<u8>, x: i64)
    ensures
        final(out)@ == old(out)@ + i64_bytes(x),
{
    push_u64(out, bits_of_i64(x));
}

/// Appends the bytes of `src` from `from` up to `to`.
pub fn push_range(out: &mut Vec<u8>, src: &[u8], from: usize, to: usize)
    requires
        from <= to <= src@.len(),
    ensures
        final(out)@ == old(out)@ + src@.subrange(from as int, to as int),
{
    let mut i: usize = from;
    while i < to
        invariant
            from <= i <= to <= src@.len(),
            out@ == old(out)@ + src@.subrange(from as int, i as int),
        decreases to - i,
    {
        out.push(src[i]);
        assert(src@.subrange(from as int, i as int).push(src@[i as int]) =~= src@.subrange(
            from as int,
            i + 1,
        ));
        assert(out@ =~= old(out)@ + src@.subrange(from as int, i + 1));
        i = i + 1;
    }
    assert(out@ =~= old(out)@ + src@.subrange(from as int, to as int));
}

pub fn push_all(out: &mut Vec<u8>, src: &[u8])
    ensures
        final(out)@ == old(out)@ + src@,
{
    push_range(out, src, 0, src.len());
    assert(src@.subrange(0, src@.len() as int) =~= src@);
}

/// The bytes of `src` from `from` up to `to`, as a vector of their own.
pub fn copy_range(src: &[u8], from: usize, to: usize) -> (r: Vec<u8>)
    requires
        from <= to <= src@.len(),
    ensures
        r@ == src@.subrange(from as int, to as int),
{
    let mut out: Vec<u8> = Vec::new();
    push_range(&mut out, src, from, to);
    assert(out@ =~= src@.subrange(from as int, to as int));
    out
}

/// A copy of `src` cut to at most `n` bytes.
pub fn copy_clipped(src: &[u8], n: usize) -> (r: Vec<u8>)
    ensures
        r@ == clipped(src@, n as int),
{
    let to: usize = if src.len() <= n {
        src.len()
    } else {
        n
    };
    let r = copy_range(src, 0, to);
    assert(r@ =~= clipped(src@, n as int));
    r
}

/// Overwrites the bytes of `dst` from `at` on by those of `src`.
pub fn put_bytes(dst: &mut Vec<u8>, at: usize, src: &[u8])
    requires
        at + src@.len() <= old(dst)@.len(),
    ensures
        final(dst)@ == splice(old(dst)@, at as int, src@),
{
    let n: usize = dst.len();
    let mut i: usize = 0;
    while i < src.len()
        invariant
            i <= src@.len(),
            n == old(dst)@.len(),
            at + src@.len() <= n,
            dst@ == splice(old(dst)@, at as int, src@.take(i as int)),
        decreases src@.len() - i,
    {
        let b: u8 = src[i];
        dst.set(at + i, b);
        assert(dst@ =~= splice(old(dst)@, at as int, src@.take(i + 1)));
        i = i + 1;
    }
    assert(src@.take(src@.len() as int) =~= src@);
    assert(dst@ =~= splice(old(dst)@, at as int, src@));
}

pub fn put_u32(dst: &mut Vec<u8>, at: usize, x: u32)
    requires
        at + 4 <= old(dst)@.len(),
    ensures
        final(dst)@ == splice(old(dst)@, at as int, u32_bytes(x)),
{
    let mut b: Vec<u8> = Vec::new();
    push_u32(&mut b, x);
    assert(b@ =~= u32_bytes(x));
    put_bytes(dst, at, b.as_slice());
}

pub fn put_u64(dst: &mut Vec<u8>, at: usize, x: u64)
    requires
        at + 8 <= old(dst)@.len(),
    ensures
        final(dst)@ == splice(old(dst)@, at as int, u64_bytes(x)),
{
    let mut b: Vec<u8> = Vec::new();
    push_u64(&mut b, x);
    assert(b@ =~= u64_bytes(x));
    put_bytes(dst, at, b.as_slice());
}

/// A vector of `n` zero bytes.
pub fn zero_bytes(n: usize) -> (r: Vec<u8>)
    ensures
        r@ == zeros(n as nat),
{
    let r: Vec<u8> = vec![0u8; n];
    assert(r@ =~= zeros(n as nat));
    r
}

/// The lowest byte of a number stands first: each byte counts 256 times what the one before it counts.
pub proof fn lemma_lowest_byte_first(s: Seq<u8>, at: int)
    ensures
        u16_at(s, at) as int == s[at] + 256 * s[at + 1],
        u32_at(s, at) as int == s[at] + 256 * s[at + 1] + 65536 * s[at + 2] + 16777216 * s[at + 3],
        u64_at(s, at) as int == s[at] + 256 * s[at + 1] + 65536 * s[at + 2] + 16777216 * s[at + 3]
            + 4294967296 * (s[at + 4] + 256 * s[at + 5] + 65536 * s[at + 6] + 16777216 * s[at + 7]),
{
}

/// The bytes of a number make it up, the lowest first.
pub proof fn lemma_bytes_make_up_number(a: u16, b: u32)
    ensures
        u16_bytes(a).len() == 2,
        u16_bytes(a)[0] + 256 * u16_bytes(a)[1] == a,
        u32_bytes(b).len() == 4,
        u32_bytes(b)[0] + 256 * u32_bytes(b)[1] + 65536 * u32_bytes(b)[2] + 16777216 * u32_bytes(b)[3] == b,
{
}

/// The bytes of a long number are those of its low half and then those of its high half.
pub proof fn lemma_halves_make_up_number(x: u64)
    ensures
        u64_bytes(x).len() == 8,
        u32_at(u64_bytes(x), 0) + 4294967296 * u32_at(u64_bytes(x), 4) == x,
{
    let s = u64_bytes(x);
    let lo = (x % 0x1_0000_0000) as u32;
    let hi = (x / 0x1_0000_0000) as u32;
    assert(s.subrange(0, 4) =~= u32_bytes(lo));
    assert(s.subrange(4, 8) =~= u32_bytes(hi));
    lemma_read_back_u32(s, 0, lo);
    lemma_read_back_u32(s, 4, hi);
}

/// A negative number has the pattern that is larger by two to the power of its bits; others have their
/// own.
pub proof fn lemma_negative_patterns(x: i32, y: i64)
    ensures
        i32_bits(x) == (if x < 0 {
            x + 4294967296
        } else {
            x as int
        }),
        i64_bits(y) == (if y < 0 {
            y + 18446744073709551616
        } else {
            y as int
        }),
{
}

/// A number reads the same in a part of some bytes and in the whole.
pub proof fn lemma_part_reads(s: Seq<u8>, at: int, part: Seq<u8>, off: int)
    requires
        0 <= at,
        at + part.len() <= s.len(),
        s.subrange(at, at + part.len()) == part,
        0 <= off,
    ensures
        off + 2 <= part.len() ==> u16_at(s, at + off) == u16_at(part, off),
        off + 4 <= part.len() ==> u32_at(s, at + off) == u32_at(part, off),
        off + 8 <= part.len() ==> u64_at(s, at + off) == u64_at(part, off),
{
    let p = s.subrange(at, at + part.len());
    assert(forall|i: int| 0 <= i < part.len() ==> #[trigger] p[i] == s[at + i]);
    assert(off + 2 <= part.len() ==> p[off] == s[at + off] && p[off + 1] == s[at + (off + 1)]);
    assert(off + 4 <= part.len() ==> p[off + 2] == s[at + (off + 2)] && p[off + 3] == s[at + (off + 3)]);
    assert(off + 8 <= part.len() ==> p[off + 4] == s[at + (off + 4)] && p[off + 5] == s[at + (off + 5)] && p[off
        + 6] == s[at + (off + 6)] && p[off + 7] == s[at + (off + 7)]);
}

} // verus!
