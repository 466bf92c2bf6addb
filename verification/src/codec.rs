//! Canonical binary encoding primitives: little-endian integers, raw digests
//! and length-prefixed byte strings, with decoders proved inverse.

use vstd::prelude::*;

verus! {

/// One byte, as it is.
pub open spec fn enc_u8(x: u8) -> Seq<u8> {
    seq![x]
}

/// Two bytes, little endian.
pub open spec fn enc_u16(x: u16) -> Seq<u8> {
    seq![(x & 0xff) as u8, ((x >> 8) & 0xff) as u8]
}

/// Eight bytes, little endian.
pub open spec fn enc_u64(x: u64) -> Seq<u8> {
    seq![
        (x & 0xff) as u8,
        ((x >> 8) & 0xff) as u8,
        ((x >> 16) & 0xff) as u8,
        ((x >> 24) & 0xff) as u8,
        ((x >> 32) & 0xff) as u8,
        ((x >> 40) & 0xff) as u8,
        ((x >> 48) & 0xff) as u8,
        ((x >> 56) & 0xff) as u8,
    ]
}

/// Sixteen bytes, little endian.
pub open spec fn enc_u128(x: u128) -> Seq<u8> {
    enc_u64((x & 0xffff_ffff_ffff_ffff) as u64) + enc_u64(((x >> 64) & 0xffff_ffff_ffff_ffff) as u64)
}

/// A byte string: its length as eight little-endian bytes, then the bytes.
pub open spec fn enc_bytes(b: Seq<u8>) -> Seq<u8> {
    enc_u64(b.len() as u64) + b
}

/// The sixteen-bit value read little-endian at `pos`.
pub open spec fn le_u16_at(s: Seq<u8>, pos: int) -> u16 {
    (s[pos] as u16) | ((s[pos + 1] as u16) << 8)
}

/// The sixty-four-bit value read little-endian at `pos`.
pub open spec fn le_u64_at(s: Seq<u8>, pos: int) -> u64 {
    (s[pos] as u64) | ((s[pos + 1] as u64) << 8) | ((s[pos + 2] as u64) << 16) | ((s[pos + 3] as u64)
        << 24) | ((s[pos + 4] as u64) << 32) | ((s[pos + 5] as u64) << 40) | ((s[pos + 6] as u64)
        << 48) | ((s[pos + 7] as u64) << 56)
}

/// Reading back the little-endian bytes of `x` yields `x`.
pub proof fn lemma_u64_round_trip(s: Seq<u8>, pos: int, x: u64)
    requires
        0 <= pos,
        pos + 8 <= s.len(),
        s.subrange(pos, pos + 8) == enc_u64(x),
    ensures
        le_u64_at(s, pos) == x,
{
    assert(s[pos] == (x & 0xff) as u8);
    assert(s[pos + 1] == ((x >> 8) & 0xff) as u8);
    assert(s[pos + 2] == ((x >> 16) & 0xff) as u8);
    assert(s[pos + 3] == ((x >> 24) & 0xff) as u8);
    assert(s[pos + 4] == ((x >> 32) & 0xff) as u8);
    assert(s[pos + 5] == ((x >> 40) & 0xff) as u8);
    assert(s[pos + 6] == ((x >> 48) & 0xff) as u8);
    assert(s[pos + 7] == ((x >> 56) & 0xff) as u8);
    assert(((x & 0xff) as u8 as u64) | ((((x >> 8) & 0xff) as u8 as u64) << 8) | ((((x >> 16)
        & 0xff) as u8 as u64) << 16) | ((((x >> 24) & 0xff) as u8 as u64) << 24) | ((((x >> 32)
        & 0xff) as u8 as u64) << 32) | ((((x >> 40) & 0xff) as u8 as u64) << 40) | ((((x >> 48)
        & 0xff) as u8 as u64) << 48) | ((((x >> 56) & 0xff) as u8 as u64) << 56) == x)
        by (bit_vector);
}

/// The two sixty-four-bit halves determine the hundred-twenty-eight-bit value.
pub proof fn lemma_u128_halves(x: u128)
    ensures
        ((x & 0xffff_ffff_ffff_ffff) as u64 as u128) | ((((x >> 64) & 0xffff_ffff_ffff_ffff) as u64
            as u128) << 64) == x,
        enc_u128(x).len() == 16,
{
    assert(((x & 0xffff_ffff_ffff_ffff) as u64 as u128) | ((((x >> 64)
        & 0xffff_ffff_ffff_ffff) as u64 as u128) << 64) == x) by (bit_vector);
}

/// Appends the byte to the buffer.
pub fn put_u8(out: &mut Vec<u8>, x: u8)
    ensures
        final(out)@ == old(out)@ + enc_u8(x),
{
    out.push(x);
    proof {
        assert(final(out)@ =~= old(out)@ + enc_u8(x));
    }
}

/// Appends the two little-endian bytes of `x`.
pub fn put_u16(out: &mut Vec<u8>, x: u16)
    ensures
        final(out)@ == old(out)@ + enc_u16(x),
{
    out.push((x & 0xff) as u8);
    out.push(((x >> 8) & 0xff) as u8);
    proof {
        assert(final(out)@ =~= old(out)@ + enc_u16(x));
    }
}

/// Appends the eight little-endian bytes of `x`.
pub fn put_u64(out: &mut Vec<u8>, x: u64)
    ensures
        final(out)@ == old(out)@ + enc_u64(x),
{
    out.push((x & 0xff) as u8);
    out.push(((x >> 8) & 0xff) as u8);
    out.push(((x >> 16) & 0xff) as u8);
    out.push(((x >> 24) & 0xff) as u8);
    out.push(((x >> 32) & 0xff) as u8);
    out.push(((x >> 40) & 0xff) as u8);
    out.push(((x >> 48) & 0xff) as u8);
    out.push(((x >> 56) & 0xff) as u8);
    proof {
        assert(final(out)@ =~= old(out)@ + enc_u64(x));
    }
}

/// Appends the sixteen little-endian bytes of `x`.
pub fn put_u128(out: &mut Vec<u8>, x: u128)
    ensures
        final(out)@ == old(out)@ + enc_u128(x),
{
    put_u64(out, (x & 0xffff_ffff_ffff_ffff) as u64);
    put_u64(out, ((x >> 64) & 0xffff_ffff_ffff_ffff) as u64);
    proof {
        assert(final(out)@ =~= old(out)@ + enc_u128(x));
    }
}

/// Appends the length-prefixed byte string.
pub fn put_bytes(out: &mut Vec<u8>, b: &Vec<u8>)
    ensures
        final(out)@ == old(out)@ + enc_bytes(b@),
{
    put_u64(out, b.len() as u64);
    let mut i: usize = 0;
    let ghost mid = out@;
    while i < b.len()
        invariant
            0 <= i <= b@.len(),
            out@ == mid + b@.take(i as int),
        decreases b@.len() - i,
    {
        out.push(b[i]);
        proof {
            assert(b@.take(i + 1) =~= b@.take(i as int).push(b@[i as int]));
            assert(out@ =~= mid + b@.take(i + 1));
        }
        i += 1;
    }
    proof {
        assert(b@.take(b@.len() as int) =~= b@);
        assert(final(out)@ =~= old(out)@ + enc_bytes(b@));
    }
}

/// Appends the 32 digest bytes, as they are.
pub fn put_hash(out: &mut Vec<u8>, h: &crate::hash::Hash)
    ensures
        final(out)@ == old(out)@ + h@,
{
    let mut i: usize = 0;
    let ghost start = out@;
    while i < 32
        invariant
            0 <= i <= 32,
            out@ == start + h@.take(i as int),
        decreases 32 - i,
    {
        out.push(h.0[i]);
        proof {
            assert(h@.take(i + 1) =~= h@.take(i as int).push(h@[i as int]));
            assert(out@ =~= start + h@.take(i + 1));
        }
        i += 1;
    }
    proof {
        assert(h@.take(32) =~= h@);
    }
}

/// Reads one byte.
pub fn get_u8(input: &[u8], pos: usize) -> (r: Option<(u8, usize)>)
    ensures
        match r {
            Some((v, next)) => pos < input@.len() && v == input@[pos as int] && next == pos + 1,
            None => pos >= input@.len(),
        },
{
    if pos < input.len() {
        Some((input[pos], pos + 1))
    } else {
        None
    }
}

/// Reads a sixteen-bit little-endian value.
pub fn get_u16(input: &[u8], pos: usize) -> (r: Option<(u16, usize)>)
    ensures
        match r {
            Some((v, next)) => pos + 2 <= input@.len() && v == le_u16_at(input@, pos as int)
                && next == pos + 2,
            None => pos + 2 > input@.len(),
        },
{
    if pos < input.len() && 2 <= input.len() - pos {
        let v = (input[pos] as u16) | ((input[pos + 1] as u16) << 8u16);
        Some((v, pos + 2))
    } else {
        None
    }
}

/// Reads a sixty-four-bit little-endian value.
pub fn get_u64(input: &[u8], pos: usize) -> (r: Option<(u64, usize)>)
    ensures
        match r {
            Some((v, next)) => pos + 8 <= input@.len() && v == le_u64_at(input@, pos as int)
                && next == pos + 8,
            None => pos + 8 > input@.len(),
        },
{
    if pos < input.len() && 8 <= input.len() - pos {
        let v = (input[pos] as u64) | ((input[pos + 1] as u64) << 8u64) | ((input[pos + 2] as u64)
            << 16u64) | ((input[pos + 3] as u64) << 24u64) | ((input[pos + 4] as u64) << 32u64) | ((
        input[pos + 5] as u64) << 40u64) | ((input[pos + 6] as u64) << 48u64) | ((input[pos
            + 7] as u64) << 56u64);
        Some((v, pos + 8))
    } else {
        None
    }
}

/// Reads a hundred-twenty-eight-bit value from two little-endian halves.
pub fn get_u128(input: &[u8], pos: usize) -> (r: Option<(u128, usize)>)
    ensures
        match r {
            Some((v, next)) => pos + 16 <= input@.len() && next == pos + 16 && v == ((le_u64_at(
                input@,
                pos as int,
            ) as u128) | ((le_u64_at(input@, pos + 8) as u128) << 64)),
            None => pos + 16 > input@.len(),
        },
{
    match get_u64(input, pos) {
        Some((lo, p1)) => match get_u64(input, p1) {
            Some((hi, p2)) => Some(((lo as u128) | ((hi as u128) << 64u128), p2)),
            None => None,
        },
        None => None,
    }
}

/// Reads a length-prefixed byte string.
pub fn get_bytes(input: &[u8], pos: usize) -> (r: Option<(Vec<u8>, usize)>)
    ensures
        match r {
            Some((v, next)) => pos + 8 <= input@.len() && le_u64_at(input@, pos as int) == v@.len()
                && next == pos + 8 + v@.len() && next <= input@.len() && v@ == input@.subrange(
                pos + 8,
                next as int,
            ),
            None => pos + 8 > input@.len() || pos + 8 + le_u64_at(input@, pos as int)
                > input@.len(),
        },
{
    let ilen = input.len();
    match get_u64(input, pos) {
        Some((len, p1)) => {
            if len <= (usize::MAX - p1) as u64 && p1 + (len as usize) <= ilen {
                let n = len as usize;
                let mut v: Vec<u8> = Vec::new();
                let mut i: usize = 0;
                while i < n
                    invariant
                        0 <= i <= n,
                        p1 + n <= input@.len(),
                        input@.len() <= usize::MAX,
                        v@ == input@.subrange(p1 as int, p1 + i),
                    decreases n - i,
                {
                    v.push(input[p1 + i]);
                    proof {
                        assert(v@ =~= input@.subrange(p1 as int, p1 + i + 1));
                    }
                    i += 1;
                }
                Some((v, p1 + n))
            } else {
                proof {
                    assert(input@.len() <= usize::MAX);
                }
                None
            }
        },
        None => None,
    }
}

/// Reads 32 raw bytes as a digest.
pub fn get_hash(input: &[u8], pos: usize) -> (r: Option<(crate::hash::Hash, usize)>)
    ensures
        match r {
            Some((v, next)) => pos + 32 <= input@.len() && next == pos + 32 && v@
                == input@.subrange(pos as int, pos + 32),
            None => pos + 32 > input@.len(),
        },
{
    if pos < input.len() && 32 <= input.len() - pos {
        let mut a = [0u8; 32];
        let mut i: usize = 0;
        while i < 32
            invariant
                0 <= i <= 32,
                pos + 32 <= input@.len(),
                input@.len() <= usize::MAX,
                forall|j: int| 0 <= j < i ==> a@[j] == input@[pos + j],
            decreases 32 - i,
        {
            a[i] = input[pos + i];
            i += 1;
        }
        proof {
            assert(a@ =~= input@.subrange(pos as int, pos + 32));
        }
        Some((crate::hash::Hash(a), pos + 32))
    } else {
        None
    }
}

/// A fresh vector holding the same bytes as the slice.
pub fn copy_bytes(src: &[u8]) -> (r: Vec<u8>)
    ensures
        r@ == src@,
{
    let mut r: Vec<u8> = Vec::new();
    let mut i: usize = 0;
    while i < src.len()
        invariant
            0 <= i <= src@.len(),
            r@ == src@.take(i as int),
        decreases src@.len() - i,
    {
        r.push(src[i]);
        proof {
            assert(r@ =~= src@.take(i + 1));
        }
        i += 1;
    }
    proof {
        assert(src@.take(src@.len() as int) =~= src@);
    }
    r
}

/// A window of a matched region matches the encoding's same window.
pub proof fn lemma_subrange_of_eq(s: Seq<u8>, pos: int, e: Seq<u8>, a: int, b: int)
    requires
        0 <= pos,
        pos + e.len() <= s.len(),
        s.subrange(pos, pos + e.len()) == e,
        0 <= a <= b <= e.len(),
    ensures
        s.subrange(pos + a, pos + b) == e.subrange(a, b),
{
    assert forall|i: int| 0 <= i < b - a implies s.subrange(pos + a, pos + b)[i] == e.subrange(
        a,
        b,
    )[i] by {
        assert(s.subrange(pos, pos + e.len())[a + i] == s[pos + a + i]);
    }
    assert(s.subrange(pos + a, pos + b) =~= e.subrange(a, b));
}

/// A region is the concatenation of its two halves.
pub proof fn lemma_subrange_split(s: Seq<u8>, a: int, b: int, c: int)
    requires
        0 <= a <= b <= c <= s.len(),
    ensures
        s.subrange(a, c) == s.subrange(a, b) + s.subrange(b, c),
{
    assert(s.subrange(a, c) =~= s.subrange(a, b) + s.subrange(b, c));
}

/// Eight bytes are the canonical little-endian form of the value they
/// spell: reading and re-writing them is the identity.
pub proof fn lemma_u64_at_canonical(s: Seq<u8>, pos: int)
    requires
        0 <= pos,
        pos + 8 <= s.len(),
    ensures
        s.subrange(pos, pos + 8) == enc_u64(le_u64_at(s, pos)),
{
    let b0 = s[pos];
    let b1 = s[pos + 1];
    let b2 = s[pos + 2];
    let b3 = s[pos + 3];
    let b4 = s[pos + 4];
    let b5 = s[pos + 5];
    let b6 = s[pos + 6];
    let b7 = s[pos + 7];
    let x = le_u64_at(s, pos);
    assert(x == (b0 as u64) | ((b1 as u64) << 8) | ((b2 as u64) << 16) | ((b3 as u64) << 24) | ((
    b4 as u64) << 32) | ((b5 as u64) << 40) | ((b6 as u64) << 48) | ((b7 as u64) << 56));
    assert({
        let y = (b0 as u64) | ((b1 as u64) << 8) | ((b2 as u64) << 16) | ((b3 as u64) << 24) | ((
        b4 as u64) << 32) | ((b5 as u64) << 40) | ((b6 as u64) << 48) | ((b7 as u64) << 56);
        (y & 0xff) as u8 == b0 && ((y >> 8) & 0xff) as u8 == b1 && ((y >> 16) & 0xff) as u8 == b2
            && ((y >> 24) & 0xff) as u8 == b3 && ((y >> 32) & 0xff) as u8 == b4 && ((y >> 40)
            & 0xff) as u8 == b5 && ((y >> 48) & 0xff) as u8 == b6 && ((y >> 56) & 0xff) as u8
            == b7
    }) by (bit_vector);
    assert(s.subrange(pos, pos + 8) =~= enc_u64(x));
}

/// Two bytes are the canonical little-endian form of the value they spell.
pub proof fn lemma_u16_at_canonical(s: Seq<u8>, pos: int)
    requires
        0 <= pos,
        pos + 2 <= s.len(),
    ensures
        s.subrange(pos, pos + 2) == enc_u16(le_u16_at(s, pos)),
{
    let b0 = s[pos];
    let b1 = s[pos + 1];
    let x = le_u16_at(s, pos);
    assert(x == (b0 as u16) | ((b1 as u16) << 8));
    assert({
        let y = (b0 as u16) | ((b1 as u16) << 8);
        (y & 0xff) as u8 == b0 && ((y >> 8) & 0xff) as u8 == b1
    }) by (bit_vector);
    assert(s.subrange(pos, pos + 2) =~= enc_u16(x));
}

} // verus!
