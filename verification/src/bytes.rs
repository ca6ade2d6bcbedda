//! Big-endian byte encodings of the fixed-width integers that the wire
//! protocol carries, with their round-trip lemmas.

use vstd::prelude::*;

verus! {

/// Big-endian bytes of a `u16`.
pub open spec fn u16_bytes(x: u16) -> Seq<u8> {
    seq![((x >> 8) & 0xff) as u8, (x & 0xff) as u8]
}

/// The `u16` read back from two big-endian bytes.
pub open spec fn u16_of_bytes(s: Seq<u8>) -> u16
    recommends
        s.len() == 2,
{
    (((s[0] as u16) << 8) | (s[1] as u16)) as u16
}

/// Big-endian bytes of a `u32`.
pub open spec fn u32_bytes(x: u32) -> Seq<u8> {
    seq![
        ((x >> 24) & 0xff) as u8,
        ((x >> 16) & 0xff) as u8,
        ((x >> 8) & 0xff) as u8,
        (x & 0xff) as u8,
    ]
}

/// The `u32` read back from four big-endian bytes.
pub open spec fn u32_of_bytes(s: Seq<u8>) -> u32
    recommends
        s.len() == 4,
{
    (((s[0] as u32) << 24) | ((s[1] as u32) << 16) | ((s[2] as u32) << 8) | (s[3] as u32)) as u32
}

/// Big-endian bytes of a `u64`.
pub open spec fn u64_bytes(x: u64) -> Seq<u8> {
    seq![
        ((x >> 56) & 0xff) as u8,
        ((x >> 48) & 0xff) as u8,
        ((x >> 40) & 0xff) as u8,
        ((x >> 32) & 0xff) as u8,
        ((x >> 24) & 0xff) as u8,
        ((x >> 16) & 0xff) as u8,
        ((x >> 8) & 0xff) as u8,
        (x & 0xff) as u8,
    ]
}

/// The `u64` read back from eight big-endian bytes.
pub open spec fn u64_of_bytes(s: Seq<u8>) -> u64
    recommends
        s.len() == 8,
{
    (((s[0] as u64) << 56) | ((s[1] as u64) << 48) | ((s[2] as u64) << 40) | ((s[3] as u64) << 32)
        | ((s[4] as u64) << 24) | ((s[5] as u64) << 16) | ((s[6] as u64) << 8) | (s[7] as u64)) as u64
}

/// The two's-complement image of an `i64` in a `u64`.
pub open spec fn u64_of_i64(x: i64) -> u64 {
    if x >= 0 {
        x as u64
    } else {
        ((x as int) + 0x1_0000_0000_0000_0000) as u64
    }
}

/// The `i64` whose two's-complement image is the given `u64`.
pub open spec fn i64_of_u64(u: u64) -> i64 {
    if u < 0x8000_0000_0000_0000 {
        u as i64
    } else {
        ((u as int) - 0x1_0000_0000_0000_0000) as i64
    }
}

/// Big-endian bytes of an `i64`, via its two's-complement image.
pub open spec fn i64_bytes(x: i64) -> Seq<u8> {
    u64_bytes(u64_of_i64(x))
}

/// The `i64` read back from eight big-endian bytes.
pub open spec fn i64_of_bytes(s: Seq<u8>) -> i64
    recommends
        s.len() == 8,
{
    i64_of_u64(u64_of_bytes(s))
}

pub proof fn lemma_u16_round_trip(x: u16)
    ensures
        u16_of_bytes(u16_bytes(x)) == x,
{
    let b0 = ((x >> 8) & 0xff) as u8;
    let b1 = (x & 0xff) as u8;
    assert((((b0 as u16) << 8) | (b1 as u16)) == x) by (bit_vector)
        requires
            b0 == ((x >> 8) & 0xff) as u8,
            b1 == (x & 0xff) as u8,
    ;
}

pub proof fn lemma_u32_round_trip(x: u32)
    ensures
        u32_of_bytes(u32_bytes(x)) == x,
{
    let b0 = ((x >> 24) & 0xff) as u8;
    let b1 = ((x >> 16) & 0xff) as u8;
    let b2 = ((x >> 8) & 0xff) as u8;
    let b3 = (x & 0xff) as u8;
    assert((((b0 as u32) << 24) | ((b1 as u32) << 16) | ((b2 as u32) << 8) | (b3 as u32)) == x)
        by (bit_vector)
        requires
            b0 == ((x >> 24) & 0xff) as u8,
            b1 == ((x >> 16) & 0xff) as u8,
            b2 == ((x >> 8) & 0xff) as u8,
            b3 == (x & 0xff) as u8,
    ;
}

pub proof fn lemma_u64_round_trip(x: u64)
    ensures
        u64_of_bytes(u64_bytes(x)) == x,
{
    let b0 = ((x >> 56) & 0xff) as u8;
    let b1 = ((x >> 48) & 0xff) as u8;
    let b2 = ((x >> 40) & 0xff) as u8;
    let b3 = ((x >> 32) & 0xff) as u8;
    let b4 = ((x >> 24) & 0xff) as u8;
    let b5 = ((x >> 16) & 0xff) as u8;
    let b6 = ((x >> 8) & 0xff) as u8;
    let b7 = (x & 0xff) as u8;
    assert((((b0 as u64) << 56) | ((b1 as u64) << 48) | ((b2 as u64) << 40) | ((b3 as u64) << 32)
        | ((b4 as u64) << 24) | ((b5 as u64) << 16) | ((b6 as u64) << 8) | (b7 as u64)) == x)
        by (bit_vector)
        requires
            b0 == ((x >> 56) & 0xff) as u8,
            b1 == ((x >> 48) & 0xff) as u8,
            b2 == ((x >> 40) & 0xff) as u8,
            b3 == ((x >> 32) & 0xff) as u8,
            b4 == ((x >> 24) & 0xff) as u8,
            b5 == ((x >> 16) & 0xff) as u8,
            b6 == ((x >> 8) & 0xff) as u8,
            b7 == (x & 0xff) as u8,
    ;
}

/// Two bytes are recovered unchanged from the integer they spell.
pub proof fn lemma_u16_bytes_inverse(s: Seq<u8>)
    requires
        s.len() == 2,
    ensures
        u16_bytes(u16_of_bytes(s)) == s,
{
    let b0 = s[0];
    let b1 = s[1];
    let x = u16_of_bytes(s);
    assert(((x >> 8) & 0xff) as u8 == b0 && (x & 0xff) as u8 == b1) by (bit_vector)
        requires
            x == (((b0 as u16) << 8) | (b1 as u16)) as u16,
    ;
    assert(u16_bytes(x) =~= s);
}

/// Four bytes are recovered unchanged from the integer they spell.
pub proof fn lemma_u32_bytes_inverse(s: Seq<u8>)
    requires
        s.len() == 4,
    ensures
        u32_bytes(u32_of_bytes(s)) == s,
{
    let b0 = s[0];
    let b1 = s[1];
    let b2 = s[2];
    let b3 = s[3];
    let x = u32_of_bytes(s);
    assert(((x >> 24) & 0xff) as u8 == b0 && ((x >> 16) & 0xff) as u8 == b1
        && ((x >> 8) & 0xff) as u8 == b2 && (x & 0xff) as u8 == b3) by (bit_vector)
        requires
            x == (((b0 as u32) << 24) | ((b1 as u32) << 16) | ((b2 as u32) << 8) | (b3 as u32))
                as u32,
    ;
    assert(u32_bytes(x) =~= s);
}

/// Eight bytes are recovered unchanged from the integer they spell.
pub proof fn lemma_u64_bytes_inverse(s: Seq<u8>)
    requires
        s.len() == 8,
    ensures
        u64_bytes(u64_of_bytes(s)) == s,
{
    let b0 = s[0];
    let b1 = s[1];
    let b2 = s[2];
    let b3 = s[3];
    let b4 = s[4];
    let b5 = s[5];
    let b6 = s[6];
    let b7 = s[7];
    let x = u64_of_bytes(s);
    assert(((x >> 56) & 0xff) as u8 == b0 && ((x >> 48) & 0xff) as u8 == b1
        && ((x >> 40) & 0xff) as u8 == b2 && ((x >> 32) & 0xff) as u8 == b3
        && ((x >> 24) & 0xff) as u8 == b4 && ((x >> 16) & 0xff) as u8 == b5
        && ((x >> 8) & 0xff) as u8 == b6 && (x & 0xff) as u8 == b7) by (bit_vector)
        requires
            x == (((b0 as u64) << 56) | ((b1 as u64) << 48) | ((b2 as u64) << 40)
                | ((b3 as u64) << 32) | ((b4 as u64) << 24) | ((b5 as u64) << 16)
                | ((b6 as u64) << 8) | (b7 as u64)) as u64,
    ;
    assert(u64_bytes(x) =~= s);
}

/// The two's-complement image and its preimage cancel.
pub proof fn lemma_i64_image_inverse(u: u64)
    ensures
        u64_of_i64(i64_of_u64(u)) == u,
{
}

/// Eight bytes are recovered unchanged from the signed integer they spell.
pub proof fn lemma_i64_bytes_inverse(s: Seq<u8>)
    requires
        s.len() == 8,
    ensures
        i64_bytes(i64_of_bytes(s)) == s,
{
    lemma_i64_image_inverse(u64_of_bytes(s));
    lemma_u64_bytes_inverse(s);
}

pub proof fn lemma_i64_round_trip(x: i64)
    ensures
        i64_of_bytes(i64_bytes(x)) == x,
{
    lemma_u64_round_trip(u64_of_i64(x));
}

/// Appends the two big-endian bytes of `x`.
pub fn push_u16(out: &mut Vec<u8>, x: u16)
    ensures
        final(out)@ == old(out)@ + u16_bytes(x),
{
    proof {
        assert((x >> 8) & 0xff < 256 && x & 0xff < 256) by (bit_vector);
    }
    out.push(((x >> 8) & 0xff) as u8);
    out.push((x & 0xff) as u8);
    assert(out@ =~= old(out)@ + u16_bytes(x));
}

/// Appends the four big-endian bytes of `x`.
pub fn push_u32(out: &mut Vec<u8>, x: u32)
    ensures
        final(out)@ == old(out)@ + u32_bytes(x),
{
    proof {
        assert((x >> 24) & 0xff < 256 && (x >> 16) & 0xff < 256 && (x >> 8) & 0xff < 256
            && x & 0xff < 256) by (bit_vector);
    }
    out.push(((x >> 24) & 0xff) as u8);
    out.push(((x >> 16) & 0xff) as u8);
    out.push(((x >> 8) & 0xff) as u8);
    out.push((x & 0xff) as u8);
    assert(out@ =~= old(out)@ + u32_bytes(x));
}

/// Appends the eight big-endian bytes of `x`.
pub fn push_u64(out: &mut Vec<u8>, x: u64)
    ensures
        final(out)@ == old(out)@ + u64_bytes(x),
{
    proof {
        assert((x >> 56) & 0xff < 256 && (x >> 48) & 0xff < 256 && (x >> 40) & 0xff < 256
            && (x >> 32) & 0xff < 256 && (x >> 24) & 0xff < 256 && (x >> 16) & 0xff < 256
            && (x >> 8) & 0xff < 256 && x & 0xff < 256) by (bit_vector);
    }
    out.push(((x >> 56) & 0xff) as u8);
    out.push(((x >> 48) & 0xff) as u8);
    out.push(((x >> 40) & 0xff) as u8);
    out.push(((x >> 32) & 0xff) as u8);
    out.push(((x >> 24) & 0xff) as u8);
    out.push(((x >> 16) & 0xff) as u8);
    out.push(((x >> 8) & 0xff) as u8);
    out.push((x & 0xff) as u8);
    assert(out@ =~= old(out)@ + u64_bytes(x));
}

/// The two's-complement image of `x`, as executable code.
pub fn u64_image(x: i64) -> (r: u64)
    ensures
        r == u64_of_i64(x),
{
    if x >= 0 {
        x as u64
    } else {
        let m: i64 = -(x + 1);
        u64::MAX - (m as u64)
    }
}

/// The `i64` whose two's-complement image is `u`, as executable code.
pub fn i64_preimage(u: u64) -> (r: i64)
    ensures
        r == i64_of_u64(u),
{
    if u < 0x8000_0000_0000_0000 {
        u as i64
    } else {
        let d: u64 = u64::MAX - u;
        -(d as i64) - 1
    }
}

/// Appends the eight big-endian bytes of `x`.
pub fn push_i64(out: &mut Vec<u8>, x: i64)
    ensures
        final(out)@ == old(out)@ + i64_bytes(x),
{
    let u = u64_image(x);
    push_u64(out, u);
}

/// Reads a big-endian `u16` at offset `i`.
pub fn read_u16(b: &Vec<u8>, i: usize) -> (r: u16)
    requires
        i + 2 <= b@.len(),
    ensures
        r == u16_of_bytes(b@.subrange(i as int, i + 2)),
{
    let n = b.len();
    let r = (((b[i] as u16) << 8) | (b[i + 1] as u16)) as u16;
    proof {
        let s = b@.subrange(i as int, i + 2);
        assert(s[0] == b@[i as int] && s[1] == b@[i + 1]);
    }
    r
}

/// Reads a big-endian `u32` at offset `i`.
pub fn read_u32(b: &Vec<u8>, i: usize) -> (r: u32)
    requires
        i + 4 <= b@.len(),
    ensures
        r == u32_of_bytes(b@.subrange(i as int, i + 4)),
{
    let n = b.len();
    let r = (((b[i] as u32) << 24) | ((b[i + 1] as u32) << 16) | ((b[i + 2] as u32) << 8)
        | (b[i + 3] as u32)) as u32;
    proof {
        let s = b@.subrange(i as int, i + 4);
        assert(s[0] == b@[i as int] && s[1] == b@[i + 1] && s[2] == b@[i + 2] && s[3] == b@[i + 3]);
    }
    r
}

/// Reads a big-endian `u64` at offset `i`.
pub fn read_u64(b: &Vec<u8>, i: usize) -> (r: u64)
    requires
        i + 8 <= b@.len(),
    ensures
        r == u64_of_bytes(b@.subrange(i as int, i + 8)),
{
    let n = b.len();
    let r = (((b[i] as u64) << 56) | ((b[i + 1] as u64) << 48) | ((b[i + 2] as u64) << 40)
        | ((b[i + 3] as u64) << 32) | ((b[i + 4] as u64) << 24) | ((b[i + 5] as u64) << 16)
        | ((b[i + 6] as u64) << 8) | (b[i + 7] as u64)) as u64;
    proof {
        let s = b@.subrange(i as int, i + 8);
        assert(s[0] == b@[i as int] && s[1] == b@[i + 1] && s[2] == b@[i + 2] && s[3] == b@[i + 3]
            && s[4] == b@[i + 4] && s[5] == b@[i + 5] && s[6] == b@[i + 6] && s[7] == b@[i + 7]);
    }
    r
}

/// Reads a big-endian `i64` at offset `i`.
pub fn read_i64(b: &Vec<u8>, i: usize) -> (r: i64)
    requires
        i + 8 <= b@.len(),
    ensures
        r == i64_of_bytes(b@.subrange(i as int, i + 8)),
{
    let u = read_u64(b, i);
    i64_preimage(u)
}

/// Appends every byte of `b`.
pub fn push_bytes(out: &mut Vec<u8>, b: &Vec<u8>)
    ensures
        final(out)@ == old(out)@ + b@,
{
    let n = b.len();
    let mut j: usize = 0;
    while j < n
        invariant
            j <= n,
            n == b@.len(),
            out@ == old(out)@ + b@.subrange(0, j as int),
        decreases n - j,
    {
        out.push(b[j]);
        assert(out@ =~= old(out)@ + b@.subrange(0, j + 1));
        j = j + 1;
    }
    assert(out@ =~= old(out)@ + b@);
}

/// Whether two byte vectors hold the same bytes.
pub fn bytes_eq(x: &Vec<u8>, y: &Vec<u8>) -> (r: bool)
    ensures
        r == (x@ == y@),
{
    let nx = x.len();
    let ny = y.len();
    if nx != ny {
        return false;
    }
    let mut j: usize = 0;
    while j < nx
        invariant
            j <= nx,
            nx == x@.len(),
            nx == y@.len(),
            forall|k: int| 0 <= k < j ==> x@[k] == y@[k],
        decreases nx - j,
    {
        if x[j] != y[j] {
            return false;
        }
        j = j + 1;
    }
    proof {
        assert(x@ =~= y@);
    }
    true
}

/// Copies `n` bytes starting at offset `i` into a fresh vector.
pub fn copy_range(b: &Vec<u8>, i: usize, n: usize) -> (r: Vec<u8>)
    requires
        i + n <= b@.len(),
    ensures
        r@ == b@.subrange(i as int, i + n),
{
    let blen = b.len();
    let mut r: Vec<u8> = Vec::new();
    let mut j: usize = 0;
    while j < n
        invariant
            j <= n,
            i + n <= blen,
            blen == b@.len(),
            r@ == b@.subrange(i as int, i + j),
        decreases n - j,
    {
        r.push(b[i + j]);
        assert(r@ =~= b@.subrange(i as int, i + j + 1));
        j = j + 1;
    }
    r
}

/// A copy of a byte vector.
pub fn dup_bytes(v: &Vec<u8>) -> (r: Vec<u8>)
    ensures
        r@ == v@,
{
    let r = copy_range(v, 0, v.len());
    proof {
        assert(r@ =~= v@);
    }
    r
}

} // verus!
