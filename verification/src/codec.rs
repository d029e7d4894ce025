//! The codec boundary: values that carry an injective binary encoding,
//! stated over their mathematical views.

use vstd::prelude::*;
use crate::engine::entry_views;

verus! {

/// A value type with an injective binary encoding and a 64-bit
/// identity hash, both functions of the value's view alone.
///
/// `wf_view` bounds the supported values (machine limits only, such as
/// a field's byte image fitting in a 64-bit length prefix).
pub trait HiveBoxable: View + Sized {
    /// Supported views: those whose encoding the machine can build.
    spec fn wf_view(v: Self::V) -> bool;

    /// The byte image of a value with view `v`.
    spec fn encoding_of(v: Self::V) -> Seq<u8>;

    /// The 64-bit content hash addressing a value in deduplicated storage.
    spec fn identity_of(v: Self::V) -> u64;

    /// Serializes the value. Every machine-representable value is
    /// supported, so no precondition is asked.
    fn encode(&self) -> (r: Vec<u8>)
        ensures
            Self::wf_view(self@),
            r@ == Self::encoding_of(self@),
    ;

    /// Parses a value back from its byte image; yields `None` exactly
    /// when no supported value has `b` as its image.
    fn decode(b: &[u8]) -> (r: Option<Self>)
        ensures
            match r {
                Some(v) => Self::wf_view(v@) && Self::encoding_of(v@) == b@,
                None => forall|w: Self::V| Self::wf_view(w) ==> Self::encoding_of(w) != b@,
            },
    ;

    /// Computes the identity hash.
    fn identity_hash(&self) -> (h: u64)
        ensures
            h == Self::identity_of(self@),
    ;

    /// The encoding is injective on supported views.
    proof fn lemma_encoding_injective(v: Self::V, w: Self::V)
        requires
            Self::wf_view(v),
            Self::wf_view(w),
            Self::encoding_of(v) == Self::encoding_of(w),
        ensures
            v == w,
    ;
}

/// The view of the value, if any, whose byte image `b` is.
pub open spec fn decode_of<T: HiveBoxable>(b: Seq<u8>) -> Option<T::V> {
    if exists|w: T::V| T::wf_view(w) && T::encoding_of(w) == b {
        Some(choose|w: T::V| T::wf_view(w) && T::encoding_of(w) == b)
    } else {
        None
    }
}

/// A byte image decodes to the view that produced it.
pub proof fn lemma_decode_of_encoding<T: HiveBoxable>(b: Seq<u8>, v: T::V)
    requires
        T::wf_view(v),
        T::encoding_of(v) == b,
    ensures
        decode_of::<T>(b) == Some(v),
{
    assert(exists|w: T::V| T::wf_view(w) && T::encoding_of(w) == b) by {
        assert(T::wf_view(v) && T::encoding_of(v) == b);
    }
    lemma_decode_of_some::<T>(b);
    T::lemma_encoding_injective(v, decode_of::<T>(b).unwrap());
}

/// Law: decoding an encoding yields the encoded view back.
pub proof fn lemma_round_trip<T: HiveBoxable>(v: T::V)
    requires
        T::wf_view(v),
    ensures
        decode_of::<T>(T::encoding_of(v)) == Some(v),
{
    lemma_decode_of_encoding::<T>(T::encoding_of(v), v);
}

/// What a successfully decoded view satisfies.
pub proof fn lemma_decode_of_some<T: HiveBoxable>(b: Seq<u8>)
    requires
        decode_of::<T>(b) is Some,
    ensures
        T::wf_view(decode_of::<T>(b).unwrap()),
        T::encoding_of(decode_of::<T>(b).unwrap()) == b,
{
}

/// The decodable values among raw entries, in entry order; entries
/// whose bytes decode to no supported value are skipped.
pub open spec fn decoded_values<T: HiveBoxable>(es: Seq<(Seq<u8>, Seq<u8>)>) -> Seq<T::V>
    decreases es.len(),
{
    if es.len() == 0 {
        Seq::empty()
    } else {
        let rest = decoded_values::<T>(es.drop_last());
        match decode_of::<T>(es.last().1) {
            Some(v) => rest.push(v),
            None => rest,
        }
    }
}

/// The decodable entries among raw entries, keys kept, in entry order;
/// entries whose bytes decode to no supported value are skipped, so the
/// key of a malformed record is never surfaced.
pub open spec fn decoded_entries<T: HiveBoxable>(es: Seq<(Seq<u8>, Seq<u8>)>) -> Seq<
    (Seq<u8>, T::V),
>
    decreases es.len(),
{
    if es.len() == 0 {
        Seq::empty()
    } else {
        let rest = decoded_entries::<T>(es.drop_last());
        match decode_of::<T>(es.last().1) {
            Some(v) => rest.push((es.last().0, v)),
            None => rest,
        }
    }
}

/// Decodes the value of each raw entry, skipping entries that fail.
pub fn decode_value_vec<T: HiveBoxable>(es: &Vec<(Vec<u8>, Vec<u8>)>) -> (r: Vec<T>)
    ensures
        r@.map_values(|v: T| v@) == decoded_values::<T>(entry_views(es@)),
{
    let mut r: Vec<T> = Vec::new();
    let mut i: usize = 0;
    while i < es.len()
        invariant
            i <= es@.len(),
            r@.map_values(|v: T| v@) == decoded_values::<T>(entry_views(es@).take(i as int)),
        decreases es@.len() - i,
    {
        let ghost pre = entry_views(es@).take(i as int);
        let ghost cur = entry_views(es@).take(i + 1);
        proof {
            assert(cur.drop_last() =~= pre);
            assert(cur.last() == entry_views(es@)[i as int]);
        }
        match T::decode(es[i].1.as_slice()) {
            Some(v) => {
                proof {
                    lemma_decode_of_encoding::<T>(es@[i as int].1@, v@);
                }
                r.push(v);
                proof {
                    assert(r@.map_values(|v: T| v@) =~= decoded_values::<T>(cur));
                }
            },
            None => {
                proof {
                    assert(decode_of::<T>(es@[i as int].1@) is None);
                    assert(r@.map_values(|v: T| v@) =~= decoded_values::<T>(cur));
                }
            },
        }
        i = i + 1;
    }
    proof {
        assert(entry_views(es@).take(es@.len() as int) =~= entry_views(es@));
    }
    r
}

/// Decodes each raw entry keeping its key, skipping entries that fail.
pub fn decode_entry_vec<T: HiveBoxable>(es: &Vec<(Vec<u8>, Vec<u8>)>) -> (r: Vec<(Vec<u8>, T)>)
    ensures
        r@.map_values(|p: (Vec<u8>, T)| (p.0@, p.1@)) == decoded_entries::<T>(entry_views(es@)),
{
    let mut r: Vec<(Vec<u8>, T)> = Vec::new();
    let mut i: usize = 0;
    while i < es.len()
        invariant
            i <= es@.len(),
            r@.map_values(|p: (Vec<u8>, T)| (p.0@, p.1@)) == decoded_entries::<T>(
                entry_views(es@).take(i as int),
            ),
        decreases es@.len() - i,
    {
        let ghost pre = entry_views(es@).take(i as int);
        let ghost cur = entry_views(es@).take(i + 1);
        proof {
            assert(cur.drop_last() =~= pre);
            assert(cur.last() == entry_views(es@)[i as int]);
        }
        match T::decode(es[i].1.as_slice()) {
            Some(v) => {
                proof {
                    lemma_decode_of_encoding::<T>(es@[i as int].1@, v@);
                }
                let key = es[i].0.clone();
                proof {
                    assert(key@ == es@[i as int].0@);
                }
                r.push((key, v));
                proof {
                    assert(r@.map_values(|p: (Vec<u8>, T)| (p.0@, p.1@)) =~= decoded_entries::<T>(
                        cur,
                    ));
                }
            },
            None => {
                proof {
                    assert(decode_of::<T>(es@[i as int].1@) is None);
                    assert(r@.map_values(|p: (Vec<u8>, T)| (p.0@, p.1@)) =~= decoded_entries::<T>(
                        cur,
                    ));
                }
            },
        }
        i = i + 1;
    }
    proof {
        assert(entry_views(es@).take(es@.len() as int) =~= entry_views(es@));
    }
    r
}

} // verus!
