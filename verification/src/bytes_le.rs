//! Little-endian byte images of machine words, and the 64-bit FNV-1a
//! hash used to derive content-addressed record keys.

use vstd::prelude::*;
use vstd::slice::slice_index_get;

verus! {

/// The eight bytes of a 64-bit word, least significant first.
pub open spec fn le64(n: u64) -> Seq<u8> {
    seq![
        (n & 0xff) as u8,
        ((n >> 8) & 0xff) as u8,
        ((n >> 16) & 0xff) as u8,
        ((n >> 24) & 0xff) as u8,
        ((n >> 32) & 0xff) as u8,
        ((n >> 40) & 0xff) as u8,
        ((n >> 48) & 0xff) as u8,
        ((n >> 56) & 0xff) as u8,
    ]
}

/// The word whose little-endian image an 8-byte sequence is.
pub open spec fn le64_val(s: Seq<u8>) -> u64
    recommends
        s.len() == 8,
{
    (s[0] as u64) | ((s[1] as u64) << 8) | ((s[2] as u64) << 16) | ((s[3] as u64) << 24) | ((
    s[4] as u64) << 32) | ((s[5] as u64) << 40) | ((s[6] as u64) << 48) | ((s[7] as u64) << 56)
}

/// The four bytes of a 32-bit word, least significant first.
pub open spec fn le32(n: u32) -> Seq<u8> {
    seq![
        (n & 0xff) as u8,
        ((n >> 8) & 0xff) as u8,
        ((n >> 16) & 0xff) as u8,
        ((n >> 24) & 0xff) as u8,
    ]
}

/// The word whose little-endian image a 4-byte sequence is.
pub open spec fn le32_val(s: Seq<u8>) -> u32
    recommends
        s.len() == 4,
{
    (s[0] as u32) | ((s[1] as u32) << 8) | ((s[2] as u32) << 16) | ((s[3] as u32) << 24)
}

pub proof fn lemma_le64_val_of_le64(n: u64)
    ensures
        le64_val(le64(n)) == n,
{
    let s = le64(n);
    assert(((n & 0xff) as u8 as u64) | (((n >> 8) & 0xff) as u8 as u64) << 8 | (((n >> 16)
        & 0xff) as u8 as u64) << 16 | (((n >> 24) & 0xff) as u8 as u64) << 24 | (((n >> 32)
        & 0xff) as u8 as u64) << 32 | (((n >> 40) & 0xff) as u8 as u64) << 40 | (((n >> 48)
        & 0xff) as u8 as u64) << 48 | (((n >> 56) & 0xff) as u8 as u64) << 56 == n)
        by (bit_vector);
}

pub proof fn lemma_le64_of_le64_val(s: Seq<u8>)
    requires
        s.len() == 8,
    ensures
        le64(le64_val(s)) == s,
{
    let n = le64_val(s);
    let b0 = s[0];
    let b1 = s[1];
    let b2 = s[2];
    let b3 = s[3];
    let b4 = s[4];
    let b5 = s[5];
    let b6 = s[6];
    let b7 = s[7];
    let m = (b0 as u64) | ((b1 as u64) << 8) | ((b2 as u64) << 16) | ((b3 as u64) << 24) | ((
    b4 as u64) << 32) | ((b5 as u64) << 40) | ((b6 as u64) << 48) | ((b7 as u64) << 56);
    assert((m & 0xff) as u8 == b0 && ((m >> 8) & 0xff) as u8 == b1 && ((m >> 16) & 0xff) as u8 == b2
        && ((m >> 24) & 0xff) as u8 == b3 && ((m >> 32) & 0xff) as u8 == b4 && ((m >> 40)
        & 0xff) as u8 == b5 && ((m >> 48) & 0xff) as u8 == b6 && ((m >> 56) & 0xff) as u8 == b7)
        by (bit_vector)
        requires
            m == (b0 as u64) | ((b1 as u64) << 8) | ((b2 as u64) << 16) | ((b3 as u64) << 24) | ((
            b4 as u64) << 32) | ((b5 as u64) << 40) | ((b6 as u64) << 48) | ((b7 as u64) << 56),
    ;
    assert(le64(n) =~= s);
}

/// Distinct words have distinct little-endian images.
pub proof fn lemma_le64_injective(a: u64, b: u64)
    requires
        le64(a) == le64(b),
    ensures
        a == b,
{
    lemma_le64_val_of_le64(a);
    lemma_le64_val_of_le64(b);
}

pub proof fn lemma_le32_val_of_le32(n: u32)
    ensures
        le32_val(le32(n)) == n,
{
    let s = le32(n);
    assert(((n & 0xff) as u8 as u32) | (((n >> 8) & 0xff) as u8 as u32) << 8 | (((n >> 16)
        & 0xff) as u8 as u32) << 16 | (((n >> 24) & 0xff) as u8 as u32) << 24 == n)
        by (bit_vector);
}

pub proof fn lemma_le32_of_le32_val(s: Seq<u8>)
    requires
        s.len() == 4,
    ensures
        le32(le32_val(s)) == s,
{
    let n = le32_val(s);
    let b0 = s[0];
    let b1 = s[1];
    let b2 = s[2];
    let b3 = s[3];
    let m = (b0 as u32) | ((b1 as u32) << 8) | ((b2 as u32) << 16) | ((b3 as u32) << 24);
    assert((m & 0xff) as u8 == b0 && ((m >> 8) & 0xff) as u8 == b1 && ((m >> 16) & 0xff) as u8 == b2
        && ((m >> 24) & 0xff) as u8 == b3) by (bit_vector)
        requires
            m == (b0 as u32) | ((b1 as u32) << 8) | ((b2 as u32) << 16) | ((b3 as u32) << 24),
    ;
    assert(le32(n) =~= s);
}

/// Distinct 32-bit words have distinct little-endian images.
pub proof fn lemma_le32_injective(a: u32, b: u32)
    requires
        le32(a) == le32(b),
    ensures
        a == b,
{
    lemma_le32_val_of_le32(a);
    lemma_le32_val_of_le32(b);
}

pub fn u64_to_le_bytes(n: u64) -> (r: Vec<u8>)
    ensures
        r@ == le64(n),
{
    let mut r: Vec<u8> = Vec::new();
    r.push((n & 0xff) as u8);
    r.push(((n >> 8) & 0xff) as u8);
    r.push(((n >> 16) & 0xff) as u8);
    r.push(((n >> 24) & 0xff) as u8);
    r.push(((n >> 32) & 0xff) as u8);
    r.push(((n >> 40) & 0xff) as u8);
    r.push(((n >> 48) & 0xff) as u8);
    r.push(((n >> 56) & 0xff) as u8);
    proof {
        assert(r@ =~= le64(n));
    }
    r
}

pub fn u32_to_le_bytes(n: u32) -> (r: Vec<u8>)
    ensures
        r@ == le32(n),
{
    let mut r: Vec<u8> = Vec::new();
    r.push((n & 0xff) as u8);
    r.push(((n >> 8) & 0xff) as u8);
    r.push(((n >> 16) & 0xff) as u8);
    r.push(((n >> 24) & 0xff) as u8);
    proof {
        assert(r@ =~= le32(n));
    }
    r
}

pub fn u64_from_le_bytes(b: &[u8], off: usize) -> (r: u64)
    requires
        off + 8 <= b@.len(),
        b@.len() <= usize::MAX,
    ensures
        r == le64_val(b@.subrange(off as int, off as int + 8)),
{
    let ghost s = b@.subrange(off as int, off as int + 8);
    let r = (*slice_index_get(b, off) as u64) | ((*slice_index_get(b, off + 1) as u64) << 8) | ((
    *slice_index_get(b, off + 2) as u64) << 16) | ((*slice_index_get(b, off + 3) as u64) << 24) | ((
    *slice_index_get(b, off + 4) as u64) << 32) | ((*slice_index_get(b, off + 5) as u64) << 40) | ((
    *slice_index_get(b, off + 6) as u64) << 48) | ((*slice_index_get(b, off + 7) as u64) << 56);
    proof {
        assert(s[0] == b@[off as int] && s[1] == b@[off + 1] && s[2] == b@[off + 2] && s[3] == b@[
            off + 3] && s[4] == b@[off + 4] && s[5] == b@[off + 5] && s[6] == b@[off + 6] && s[7]
            == b@[off + 7]);
    }
    r
}

pub fn u32_from_le_bytes(b: &[u8], off: usize) -> (r: u32)
    requires
        off + 4 <= b@.len(),
        b@.len() <= usize::MAX,
    ensures
        r == le32_val(b@.subrange(off as int, off as int + 4)),
{
    let ghost s = b@.subrange(off as int, off as int + 4);
    let r = (*slice_index_get(b, off) as u32) | ((*slice_index_get(b, off + 1) as u32) << 8) | ((
    *slice_index_get(b, off + 2) as u32) << 16) | ((*slice_index_get(b, off + 3) as u32) << 24);
    proof {
        assert(s[0] == b@[off as int] && s[1] == b@[off + 1] && s[2] == b@[off + 2] && s[3] == b@[
            off + 3]);
    }
    r
}

/// The 64-bit FNV-1a hash of a byte sequence.
pub open spec fn fnv64(s: Seq<u8>) -> u64
    decreases s.len(),
{
    if s.len() == 0 {
        0xcbf29ce484222325u64
    } else {
        vstd::wrapping::u64_specs::wrapping_mul(fnv64(s.drop_last()) ^ (s.last() as u64), 0x100000001b3u64)
    }
}

/// Computes the FNV-1a hash of the bytes of a vector.
pub fn fnv64_bytes(b: &Vec<u8>) -> (r: u64)
    ensures
        r == fnv64(b@),
{
    let mut h: u64 = 0xcbf29ce484222325u64;
    let mut i: usize = 0;
    while i < b.len()
        invariant
            i <= b@.len(),
            h == fnv64(b@.take(i as int)),
        decreases b@.len() - i,
    {
        proof {
            assert(b@.take(i + 1).drop_last() =~= b@.take(i as int));
            assert(b@.take(i + 1).last() == b@[i as int]);
        }
        h = (h ^ (b[i] as u64)).wrapping_mul(0x100000001b3u64);
        i = i + 1;
    }
    proof {
        assert(b@.take(b@.len() as int) =~= b@);
    }
    h
}

} // verus!
