//! Big-endian integers, NUL-terminated strings and UTF-8 text inside byte
//! sequences: the vocabulary in which the blob format is described.

use vstd::prelude::*;
use vstd::utf8::{decode_utf8, encode_utf8, valid_utf8};
use zerocopy::byteorder::big_endian;
use zerocopy::FromBytes;

verus! {

/// The 32-bit integer whose big-endian encoding is the four bytes of `b`
/// that start at `off`.
pub open spec fn be_u32(b: Seq<u8>, off: int) -> u32
    recommends
        0 <= off,
        off + 4 <= b.len(),
{
    (b[off] as int * 0x100_0000 + b[off + 1] as int * 0x1_0000 + b[off + 2] as int * 0x100
        + b[off + 3] as int) as u32
}

/// The 64-bit integer whose big-endian encoding is the eight bytes of `b`
/// that start at `off`.
pub open spec fn be_u64(b: Seq<u8>, off: int) -> u64
    recommends
        0 <= off,
        off + 8 <= b.len(),
{
    (be_u32(b, off) as int * 0x1_0000_0000 + be_u32(b, off + 4) as int) as u64
}

/// The big-endian encoding of `v`: four bytes, most significant first.
#[verifier::opaque]
pub open spec fn u32_be(v: u32) -> Seq<u8> {
    seq![
        (v / 0x100_0000) as u8,
        ((v / 0x1_0000) % 0x100) as u8,
        ((v / 0x100) % 0x100) as u8,
        (v % 0x100) as u8,
    ]
}

/// The big-endian encoding of `v`: eight bytes, most significant first.
#[verifier::opaque]
pub open spec fn u64_be(v: u64) -> Seq<u8> {
    u32_be((v / 0x1_0000_0000) as u32) + u32_be((v % 0x1_0000_0000) as u32)
}

/// An encoded `u32` takes four bytes.
pub proof fn lemma_u32_be_len(v: u32)
    ensures
        u32_be(v).len() == 4,
{
    reveal(u32_be);
}

/// An encoded `u64` takes eight bytes.
pub proof fn lemma_u64_be_len(v: u64)
    ensures
        u64_be(v).len() == 8,
{
    reveal(u32_be);
    reveal(u64_be);
}

/// Decoding inverts encoding, wherever in a sequence the encoding stands.
pub proof fn lemma_be_u32_of_encoding(b: Seq<u8>, off: int, v: u32)
    requires
        0 <= off,
        off + 4 <= b.len(),
        b.subrange(off, off + 4) == u32_be(v),
    ensures
        be_u32(b, off) == v,
{
    reveal(u32_be);
    let e = u32_be(v);
    assert(b[off] == b.subrange(off, off + 4)[0]);
    assert(b[off + 1] == b.subrange(off, off + 4)[1]);
    assert(b[off + 2] == b.subrange(off, off + 4)[2]);
    assert(b[off + 3] == b.subrange(off, off + 4)[3]);
    assert(e[0] == (v / 0x100_0000) as u8);
    assert(e[1] == ((v / 0x1_0000) % 0x100) as u8);
    assert(e[2] == ((v / 0x100) % 0x100) as u8);
    assert(e[3] == (v % 0x100) as u8);
}

/// Decoding inverts encoding, for 64-bit values.
pub proof fn lemma_be_u64_of_encoding(b: Seq<u8>, off: int, v: u64)
    requires
        0 <= off,
        off + 8 <= b.len(),
        b.subrange(off, off + 8) == u64_be(v),
    ensures
        be_u64(b, off) == v,
{
    reveal(u64_be);
    lemma_u32_be_len((v / 0x1_0000_0000) as u32);
    lemma_u32_be_len((v % 0x1_0000_0000) as u32);
    let hi = (v / 0x1_0000_0000) as u32;
    let lo = (v % 0x1_0000_0000) as u32;
    let e = u64_be(v);
    assert(b.subrange(off, off + 4) =~= e.subrange(0, 4));
    assert(b.subrange(off + 4, off + 8) =~= e.subrange(4, 8));
    assert(e.subrange(0, 4) =~= u32_be(hi));
    assert(e.subrange(4, 8) =~= u32_be(lo));
    lemma_be_u32_of_encoding(b, off, hi);
    lemma_be_u32_of_encoding(b, off + 4, lo);
}

/// Reads a big-endian `u32` at `offset`, or nothing where fewer than four
/// bytes are left.
///
/// Trusted: calls zerocopy's `FromBytes::ref_from_prefix` for
/// `big_endian::U32` and then `U32::get`. The contract claims that the
/// prefix read succeeds exactly when four bytes are available (the type is
/// unaligned and four bytes wide) and that `get` yields the value those
/// four bytes encode, most significant byte first.
#[verifier::external_body]
pub(crate) fn read_be_u32(data: &[u8], offset: usize) -> (r: Option<u32>)
    requires
        offset <= data@.len(),
    ensures
        r == if offset + 4 <= data@.len() {
            Some(be_u32(data@, offset as int))
        } else {
            None
        },
{
    match big_endian::U32::ref_from_prefix(&data[offset..]) {
        Ok((val, _)) => Some(val.get()),
        Err(_) => None,
    }
}

/// Reads a big-endian `u64` at `offset`, or nothing where fewer than eight
/// bytes are left.
///
/// Trusted: calls zerocopy's `FromBytes::ref_from_prefix` for
/// `big_endian::U64` and then `U64::get`. The contract claims that the
/// prefix read succeeds exactly when eight bytes are available and that
/// `get` yields the value those eight bytes encode, most significant byte
/// first.
#[verifier::external_body]
pub(crate) fn read_be_u64(data: &[u8], offset: usize) -> (r: Option<u64>)
    requires
        offset <= data@.len(),
    ensures
        r == if offset + 8 <= data@.len() {
            Some(be_u64(data@, offset as int))
        } else {
            None
        },
{
    match big_endian::U64::ref_from_prefix(&data[offset..]) {
        Ok((val, _)) => Some(val.get()),
        Err(_) => None,
    }
}

/// Appends the big-endian encoding of `v` to `out`.
pub fn push_be_u32(out: &mut Vec<u8>, v: u32)
    ensures
        final(out)@ == old(out)@ + u32_be(v),
{
    out.push((v / 0x100_0000) as u8);
    out.push(((v / 0x1_0000) % 0x100) as u8);
    out.push(((v / 0x100) % 0x100) as u8);
    out.push((v % 0x100) as u8);
    proof {
        reveal(u32_be);
    }
    assert(out@ =~= old(out)@ + u32_be(v));
}

/// Appends the big-endian encoding of `v` to `out`.
pub fn push_be_u64(out: &mut Vec<u8>, v: u64)
    ensures
        final(out)@ == old(out)@ + u64_be(v),
{
    push_be_u32(out, (v / 0x1_0000_0000) as u32);
    push_be_u32(out, (v % 0x1_0000_0000) as u32);
    proof {
        reveal(u64_be);
    }
    assert(out@ =~= old(out)@ + u64_be(v));
}

/// The index of the first zero byte of `b` at or after `start`, or the
/// length of `b` where there is none.
pub open spec fn first_nul(b: Seq<u8>, start: int) -> int
    decreases b.len() - start,
{
    if start < 0 || start >= b.len() {
        b.len() as int
    } else if b[start] == 0 {
        start
    } else {
        first_nul(b, start + 1)
    }
}

/// `first_nul` lies between its start and the end, every byte before it is
/// non-zero, and the byte at it, if there is one, is zero.
pub proof fn lemma_first_nul(b: Seq<u8>, start: int)
    requires
        0 <= start <= b.len(),
    ensures
        start <= first_nul(b, start) <= b.len(),
        forall|i: int| start <= i < first_nul(b, start) ==> b[i] != 0,
        first_nul(b, start) < b.len() ==> b[first_nul(b, start)] == 0,
    decreases b.len() - start,
{
    if start < b.len() && b[start] != 0 {
        lemma_first_nul(b, start + 1);
    }
}

/// A zero byte at `at` with none before it is the first one.
pub proof fn lemma_first_nul_is(b: Seq<u8>, start: int, at: int)
    requires
        0 <= start <= at < b.len(),
        b[at] == 0,
        forall|i: int| start <= i < at ==> b[i] != 0,
    ensures
        first_nul(b, start) == at,
    decreases at - start,
{
    if start < at {
        lemma_first_nul_is(b, start + 1, at);
    }
}

/// Finds the first zero byte of `data` at or after `start`.
pub fn find_nul(data: &[u8], start: usize) -> (r: Option<usize>)
    requires
        start <= data@.len(),
    ensures
        match r {
            Some(i) => i == first_nul(data@, start as int) && i < data@.len(),
            None => first_nul(data@, start as int) == data@.len(),
        },
{
    let mut i: usize = start;
    while i < data.len()
        invariant
            start <= i <= data@.len(),
            first_nul(data@, start as int) == first_nul(data@, i as int),
        decreases data@.len() - i,
    {
        if data[i] == 0 {
            return Some(i);
        }
        i += 1;
    }
    None
}

/// The least multiple of four that is not below `x`.
pub open spec fn align4(x: int) -> int {
    (x + 3) / 4 * 4
}

/// `align4(x)`, but never beyond `limit`: the place where reading goes on
/// after a padded element that ends at `x` in a buffer of `limit` bytes.
pub open spec fn align4_within(x: int, limit: int) -> int {
    if align4(x) <= limit {
        align4(x)
    } else {
        limit
    }
}

/// Computes `align4_within`.
pub fn align_within(x: usize, limit: usize) -> (r: usize)
    requires
        x <= limit,
    ensures
        r == align4_within(x as int, limit as int),
        x <= r <= limit,
{
    let pad: usize = (4 - x % 4) % 4;
    if limit - x < pad {
        limit
    } else {
        x + pad
    }
}

/// Text from bytes: the string that `bytes` encodes in UTF-8, if any.
///
/// Trusted: calls `core::str::from_utf8`. The contract claims what its
/// documentation says: it succeeds exactly on well-formed UTF-8, and the
/// string it returns consists of the very bytes given.
#[verifier::external_body]
pub(crate) fn str_from_utf8(bytes: &[u8]) -> (r: Option<&str>)
    ensures
        r is Some <==> valid_utf8(bytes@),
        r matches Some(s) ==> encode_utf8(s@) == bytes@,
{
    core::str::from_utf8(bytes).ok()
}

/// A string read back from its own encoding is the same string.
pub proof fn lemma_decode_of_bytes(s: &str)
    ensures
        valid_utf8(encode_utf8(s@)),
        decode_utf8(encode_utf8(s@)) == s@,
{
    vstd::utf8::encode_utf8_valid_utf8(s@);
    vstd::utf8::encode_utf8_decode_utf8(s@);
}

/// Whether two strings hold the same text.
pub fn str_eq(a: &str, b: &str) -> (r: bool)
    ensures
        r == (a@ == b@),
{
    let x = a.as_bytes();
    let y = b.as_bytes();
    proof {
        lemma_decode_of_bytes(a);
        lemma_decode_of_bytes(b);
    }
    if x.len() != y.len() {
        return false;
    }
    let mut i: usize = 0;
    while i < x.len()
        invariant
            x@.len() == y@.len(),
            x@ == encode_utf8(a@),
            y@ == encode_utf8(b@),
            decode_utf8(encode_utf8(a@)) == a@,
            decode_utf8(encode_utf8(b@)) == b@,
            i <= x@.len(),
            forall|k: int| 0 <= k < i ==> x@[k] == y@[k],
        decreases x@.len() - i,
    {
        if x[i] != y[i] {
            return false;
        }
        i += 1;
    }
    assert(x@ =~= y@);
    true
}

/// `s` without the run of `c` at its end.
pub open spec fn trim_end(s: Seq<char>, c: char) -> Seq<char>
    decreases s.len(),
{
    if s.len() > 0 && s.last() == c {
        trim_end(s.drop_last(), c)
    } else {
        s
    }
}

/// The part of `s` before the run of `c` at its end.
///
/// Trusted: calls `str::trim_end_matches` with a `char` pattern. The
/// contract claims what its documentation says: every suffix that matches
/// the pattern is removed, repeatedly.
#[verifier::external_body]
pub(crate) fn str_trim_end<'a>(s: &'a str, c: char) -> (r: &'a str)
    ensures
        r@ == trim_end(s@, c),
{
    s.trim_end_matches(c)
}

} // verus!
