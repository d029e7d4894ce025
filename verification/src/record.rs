//! A concrete record type carried through the stores: two text fields
//! and a 32-bit integer, with a verified length-prefixed binary codec.

use vstd::prelude::*;
use vstd::utf8::*;
use vstd::string::{StrSliceExecFns, StringExecFns};
use vstd::slice::{slice_subrange, slice_to_vec};
use crate::bytes_le::{le64, le32, fnv64};
use crate::bytes_le::{lemma_le64_val_of_le64, lemma_le64_of_le64_val, lemma_le32_of_le32_val};
use crate::bytes_le::{u64_to_le_bytes, u32_to_le_bytes, u64_from_le_bytes, u32_from_le_bytes};
use crate::bytes_le::fnv64_bytes;
use crate::codec::HiveBoxable;
use crate::self_boxed::HiveNamed;

verus! {

/// Relies on String::from_utf8: it succeeds exactly on valid UTF-8
/// input, returning the character sequence those bytes encode.
#[verifier::external_body]
fn string_from_utf8(bytes: Vec<u8>) -> (r: Option<String>)
    ensures
        match r {
            Some(s) => valid_utf8(bytes@) && s@ == decode_utf8(bytes@),
            None => !valid_utf8(bytes@),
        },
{
    String::from_utf8(bytes).ok()
}

/// The unsigned 32-bit word holding a signed integer's two's-complement bits.
pub open spec fn i32_bits(x: i32) -> u32 {
    if x >= 0 {
        x as u32
    } else {
        (x + 0x100000000) as u32
    }
}

/// The signed integer whose two's-complement bits a 32-bit word holds.
pub open spec fn bits_i32(u: u32) -> i32 {
    if u < 0x80000000 {
        u as i32
    } else {
        (u - 0x100000000) as i32
    }
}

pub proof fn lemma_bits_of_i32_bits(x: i32)
    ensures
        bits_i32(i32_bits(x)) == x,
{
}

pub proof fn lemma_i32_bits_of_bits(u: u32)
    ensures
        i32_bits(bits_i32(u)) == u,
{
}

pub fn i32_to_bits(x: i32) -> (r: u32)
    ensures
        r == i32_bits(x),
{
    if x >= 0 {
        x as u32
    } else {
        ((x as i64) + 0x100000000i64) as u32
    }
}

pub fn bits_to_i32(u: u32) -> (r: i32)
    ensures
        r == bits_i32(u),
{
    if u < 0x80000000 {
        u as i32
    } else {
        ((u as i64) - 0x100000000i64) as i32
    }
}

/// The mathematical view of a [`Hello`] record.
pub struct HelloView {
    pub world: Seq<char>,
    pub sus: Seq<char>,
    pub num: i32,
}

/// A sample record: two text fields and a 32-bit integer.
#[derive(Debug, Clone, PartialEq, Eq)]
pub struct Hello {
    pub world: String,
    pub sus: String,
    pub num: i32,
}

impl View for Hello {
    type V = HelloView;

    open spec fn view(&self) -> HelloView {
        HelloView { world: self.world@, sus: self.sus@, num: self.num }
    }
}

impl Hello {
    pub fn new(world: String, sus: String, num: i32) -> (r: Self)
        ensures
            r@.world == world@,
            r@.sus == sus@,
            r@.num == num,
    {
        Hello { world, sus, num }
    }
}

impl Default for Hello {
    /// The stock record: "world", "sus", zero.
    fn default() -> (r: Self)
        ensures
            r@.world == "world"@,
            r@.sus == "sus"@,
            r@.num == 0,
    {
        Hello {
            world: String::from_str("world"),
            sus: String::from_str("sus"),
            num: 0,
        }
    }
}

impl HiveNamed for Hello {
    /// The ASCII bytes of "hello".
    open spec fn hive_name_spec() -> Seq<u8> {
        seq![0x68u8, 0x65u8, 0x6cu8, 0x6cu8, 0x6fu8]
    }

    fn hive_name() -> (r: Vec<u8>) {
        let r = vec![0x68u8, 0x65u8, 0x6cu8, 0x6cu8, 0x6fu8];
        proof {
            assert(r@ =~= Self::hive_name_spec());
        }
        r
    }
}

/// Supported views: each text field's byte image carries a 64-bit
/// length prefix, so it must fit one.
pub open spec fn hello_wf(v: HelloView) -> bool {
    encode_utf8(v.world).len() <= u64::MAX && encode_utf8(v.sus).len() <= u64::MAX
}

/// The byte image of a record: each text field as a length-prefixed
/// UTF-8 segment, then the integer's four bytes.
pub open spec fn hello_enc(v: HelloView) -> Seq<u8> {
    le64(encode_utf8(v.world).len() as u64) + encode_utf8(v.world) + le64(
        encode_utf8(v.sus).len() as u64,
    ) + encode_utf8(v.sus) + le32(i32_bits(v.num))
}

/// How a record's byte image splits back into its five segments.
proof fn lemma_hello_enc_parts(v: HelloView, b: Seq<u8>)
    requires
        hello_wf(v),
        hello_enc(v) == b,
    ensures
        b.len() == 20 + encode_utf8(v.world).len() + encode_utf8(v.sus).len(),
        b.subrange(0, 8) == le64(encode_utf8(v.world).len() as u64),
        b.subrange(8, 8 + encode_utf8(v.world).len() as int) == encode_utf8(v.world),
        b.subrange(
            8 + encode_utf8(v.world).len() as int,
            16 + encode_utf8(v.world).len() as int,
        ) == le64(encode_utf8(v.sus).len() as u64),
        b.subrange(
            16 + encode_utf8(v.world).len() as int,
            16 + encode_utf8(v.world).len() + encode_utf8(v.sus).len() as int,
        ) == encode_utf8(v.sus),
        b.subrange(b.len() - 4, b.len() as int) == le32(i32_bits(v.num)),
{
    let wl = encode_utf8(v.world).len() as int;
    let sl = encode_utf8(v.sus).len() as int;
    assert(b.len() == 20 + wl + sl);
    assert(b.subrange(0, 8) =~= le64(encode_utf8(v.world).len() as u64));
    assert(b.subrange(8, 8 + wl) =~= encode_utf8(v.world));
    assert(b.subrange(8 + wl, 16 + wl) =~= le64(encode_utf8(v.sus).len() as u64));
    assert(b.subrange(16 + wl, 16 + wl + sl) =~= encode_utf8(v.sus));
    assert(b.subrange(16 + wl + sl, 20 + wl + sl) =~= le32(i32_bits(v.num)));
}

impl HiveBoxable for Hello {
    open spec fn wf_view(v: HelloView) -> bool {
        hello_wf(v)
    }

    open spec fn encoding_of(v: HelloView) -> Seq<u8> {
        hello_enc(v)
    }

    open spec fn identity_of(v: HelloView) -> u64 {
        fnv64(hello_enc(v))
    }

    fn encode(&self) -> (r: Vec<u8>) {
        let mut wb = self.world.as_str().as_bytes_vec();
        let mut sb = self.sus.as_str().as_bytes_vec();
        let wlen = wb.len();
        let slen = sb.len();
        let mut r = u64_to_le_bytes(wlen as u64);
        r.append(&mut wb);
        let mut sp = u64_to_le_bytes(slen as u64);
        r.append(&mut sp);
        r.append(&mut sb);
        let mut ib = u32_to_le_bytes(i32_to_bits(self.num));
        r.append(&mut ib);
        proof {
            assert(r@ =~= hello_enc(self@));
        }
        r
    }

    fn decode(b: &[u8]) -> (r: Option<Self>) {
        let n = b.len();
        if n < 20 {
            proof {
                assert forall|w: HelloView| hello_wf(w) implies hello_enc(w) != b@ by {
                    if hello_enc(w) == b@ {
                        lemma_hello_enc_parts(w, b@);
                    }
                }
            }
            return None;
        }
        let wl64 = u64_from_le_bytes(b, 0);
        if wl64 > (n - 20) as u64 {
            proof {
                assert forall|w: HelloView| hello_wf(w) implies hello_enc(w) != b@ by {
                    if hello_enc(w) == b@ {
                        lemma_hello_enc_parts(w, b@);
                        lemma_le64_val_of_le64(encode_utf8(w.world).len() as u64);
                    }
                }
            }
            return None;
        }
        let wl = wl64 as usize;
        let wvec = slice_to_vec(slice_subrange(b, 8, 8 + wl));
        let world = match string_from_utf8(wvec) {
            Some(s) => s,
            None => {
                proof {
                    assert forall|w: HelloView| hello_wf(w) implies hello_enc(w) != b@ by {
                        if hello_enc(w) == b@ {
                            lemma_hello_enc_parts(w, b@);
                            lemma_le64_val_of_le64(encode_utf8(w.world).len() as u64);
                            encode_utf8_valid_utf8(w.world);
                        }
                    }
                }
                return None;
            },
        };
        let sl64 = u64_from_le_bytes(b, 8 + wl);
        if sl64 != (n - 20 - wl) as u64 {
            proof {
                assert forall|w: HelloView| hello_wf(w) implies hello_enc(w) != b@ by {
                    if hello_enc(w) == b@ {
                        lemma_hello_enc_parts(w, b@);
                        lemma_le64_val_of_le64(encode_utf8(w.world).len() as u64);
                        lemma_le64_val_of_le64(encode_utf8(w.sus).len() as u64);
                    }
                }
            }
            return None;
        }
        let sl = n - 20 - wl;
        let svec = slice_to_vec(slice_subrange(b, 16 + wl, 16 + wl + sl));
        let sus = match string_from_utf8(svec) {
            Some(s) => s,
            None => {
                proof {
                    assert forall|w: HelloView| hello_wf(w) implies hello_enc(w) != b@ by {
                        if hello_enc(w) == b@ {
                            lemma_hello_enc_parts(w, b@);
                            lemma_le64_val_of_le64(encode_utf8(w.world).len() as u64);
                            lemma_le64_val_of_le64(encode_utf8(w.sus).len() as u64);
                            encode_utf8_valid_utf8(w.sus);
                        }
                    }
                }
                return None;
            },
        };
        let u = u32_from_le_bytes(b, n - 4);
        let num = bits_to_i32(u);
        let out = Hello { world, sus, num };
        proof {
            let wseg = b@.subrange(8, 8 + wl as int);
            let sseg = b@.subrange(16 + wl as int, 16 + wl as int + sl as int);
            decode_utf8_encode_utf8(wseg);
            decode_utf8_encode_utf8(sseg);
            assert(encode_utf8(out@.world) == wseg);
            assert(encode_utf8(out@.sus) == sseg);
            lemma_le64_of_le64_val(b@.subrange(0, 8));
            lemma_le64_of_le64_val(b@.subrange(8 + wl as int, 16 + wl as int));
            lemma_le32_of_le32_val(b@.subrange(n - 4, n as int));
            lemma_i32_bits_of_bits(u);
            assert(hello_enc(out@) =~= b@);
        }
        Some(out)
    }

    fn identity_hash(&self) -> (h: u64) {
        let e = self.encode();
        fnv64_bytes(&e)
    }

    proof fn lemma_encoding_injective(v: HelloView, w: HelloView) {
        let b = hello_enc(v);
        lemma_hello_enc_parts(v, b);
        lemma_hello_enc_parts(w, b);
        crate::bytes_le::lemma_le64_injective(
            encode_utf8(v.world).len() as u64,
            encode_utf8(w.world).len() as u64,
        );
        assert(encode_utf8(v.world) == encode_utf8(w.world));
        assert(encode_utf8(v.sus) == encode_utf8(w.sus));
        encode_utf8_decode_utf8(v.world);
        encode_utf8_decode_utf8(w.world);
        encode_utf8_decode_utf8(v.sus);
        encode_utf8_decode_utf8(w.sus);
        crate::bytes_le::lemma_le32_injective(i32_bits(v.num), i32_bits(w.num));
        lemma_bits_of_i32_bits(v.num);
        lemma_bits_of_i32_bits(w.num);
        assert(v.world == w.world && v.sus == w.sus && v.num == w.num);
    }
}

} // verus!
