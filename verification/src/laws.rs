//! The library's laws: what holds across operations, stated over the
//! spec-level models that the operations' contracts use.

use vstd::prelude::*;
use crate::bytes_le::le64;
use crate::codec::{HiveBoxable, decode_of, decoded_entries, decoded_values, lemma_round_trip};
use crate::engine::{lex_lt, is_listing};
use crate::self_boxed::{prior_usable, adopt_outcome, seed_outcome, reconciled};

verus! {

/// Law: after a put of `v` at `k`, a typed get at `k` yields exactly
/// `v`; after a delete of `k`, a get at `k` finds nothing.
pub proof fn lemma_keyed_crud<T: HiveBoxable>(m: Map<Seq<u8>, Seq<u8>>, k: Seq<u8>, v: T::V)
    requires
        T::wf_view(v),
    ensures
        m.insert(k, T::encoding_of(v)).contains_key(k),
        decode_of::<T>(m.insert(k, T::encoding_of(v))[k]) == Some(v),
        !m.remove(k).contains_key(k),
{
    lemma_round_trip::<T>(v);
}

/// Law: dedup lookup is stable under identity — after an add of `v`,
/// a lookup under any query of equal identity finds the stored twin,
/// whose identity equals the query's.
pub proof fn lemma_dedup_identity<T: HiveBoxable>(
    m: Map<Seq<u8>, Seq<u8>>,
    v: T::V,
    q: T::V,
)
    requires
        T::wf_view(v),
        T::identity_of(q) == T::identity_of(v),
    ensures
        ({
            let m1 = m.insert(le64(T::identity_of(v)), T::encoding_of(v));
            &&& m1.contains_key(le64(T::identity_of(q)))
            &&& decode_of::<T>(m1[le64(T::identity_of(q))]) == Some(v)
            &&& T::identity_of(decode_of::<T>(m1[le64(T::identity_of(q))]).unwrap())
                == T::identity_of(q)
        }),
{
    lemma_round_trip::<T>(v);
}

pub proof fn lemma_lex_lt_irreflexive(a: Seq<u8>)
    ensures
        !lex_lt(a, a),
    decreases a.len(),
{
    if a.len() > 0 {
        lemma_lex_lt_irreflexive(a.drop_first());
    }
}

pub proof fn lemma_lex_lt_asymmetric(a: Seq<u8>, b: Seq<u8>)
    requires
        lex_lt(a, b),
    ensures
        !lex_lt(b, a),
    decreases a.len(),
{
    if a.len() > 0 && b.len() > 0 && a[0] == b[0] {
        lemma_lex_lt_asymmetric(a.drop_first(), b.drop_first());
    }
}

pub proof fn lemma_lex_lt_connected(a: Seq<u8>, b: Seq<u8>)
    requires
        a != b,
    ensures
        lex_lt(a, b) || lex_lt(b, a),
    decreases a.len(),
{
    if a.len() == 0 && b.len() == 0 {
        assert(a =~= b);
    } else if a.len() > 0 && b.len() > 0 && a[0] == b[0] {
        if a.drop_first() == b.drop_first() {
            assert(a.drop_first() =~= a.subrange(1, a.len() as int));
            assert(b.drop_first() =~= b.subrange(1, b.len() as int));
            assert(a.len() == b.len());
            assert forall|i: int| 0 <= i < a.len() implies a[i] == b[i] by {
                if i > 0 {
                    assert(a.drop_first()[i - 1] == a[i]);
                    assert(b.drop_first()[i - 1] == b[i]);
                }
            }
            assert(a =~= b);
        } else {
            lemma_lex_lt_connected(a.drop_first(), b.drop_first());
        }
    }
}

/// Law: the listing of given contents is unique — a scan's output is a
/// function of what is stored, not of how it got there.
pub proof fn lemma_listing_unique(
    m: Map<Seq<u8>, Seq<u8>>,
    es1: Seq<(Seq<u8>, Seq<u8>)>,
    es2: Seq<(Seq<u8>, Seq<u8>)>,
)
    requires
        is_listing(m, es1),
        is_listing(m, es2),
    ensures
        es1 == es2,
    decreases es1.len(),
{
    if es1.len() == 0 {
        assert(es2.len() == 0) by {
            if es2.len() > 0 {
                assert(m.contains_key(es2[0].0));
                assert(exists|i: int| 0 <= i < es1.len() && (#[trigger] es1[i].0) == es2[0].0);
            }
        }
        assert(es1 =~= es2);
    } else {
        assert(es2.len() > 0) by {
            assert(m.contains_key(es1[0].0));
            assert(exists|i: int| 0 <= i < es2.len() && (#[trigger] es2[i].0) == es1[0].0);
        }
        let k1 = es1[0].0;
        let k2 = es2[0].0;
        assert(k1 == k2) by {
            if k1 != k2 {
                lemma_lex_lt_connected(k1, k2);
                assert(m.contains_key(k2));
                let i = choose|i: int| 0 <= i < es1.len() && (#[trigger] es1[i].0) == k2;
                assert(i > 0 ==> lex_lt(k1, es1[i].0));
                assert(m.contains_key(k1));
                let j = choose|j: int| 0 <= j < es2.len() && (#[trigger] es2[j].0) == k1;
                assert(j > 0 ==> lex_lt(k2, es2[j].0));
                lemma_lex_lt_asymmetric(k1, k2);
                lemma_lex_lt_asymmetric(k2, k1);
                assert(false);
            }
        }
        assert(es1[0].1 == m[k1] && es2[0].1 == m[k2]);
        assert(es1[0] =~= es2[0]);
        let m1 = m.remove(k1);
        lemma_sub_listing(m, es1);
        lemma_sub_listing(m, es2);
        lemma_listing_unique(m1, es1.drop_first(), es2.drop_first());
        assert(es1.drop_first() =~= es1.subrange(1, es1.len() as int));
        assert(es2.drop_first() =~= es2.subrange(1, es2.len() as int));
        assert(es1.len() == es2.len());
        assert forall|i: int| 0 <= i < es1.len() implies es1[i] == es2[i] by {
            if i > 0 {
                assert(es1.drop_first()[i - 1] == es1[i]);
                assert(es2.drop_first()[i - 1] == es2[i]);
            }
        }
        assert(es1 =~= es2);
    }
}

/// Dropping a nonempty listing's first entry lists the remaining
/// contents.
proof fn lemma_sub_listing(m: Map<Seq<u8>, Seq<u8>>, es: Seq<(Seq<u8>, Seq<u8>)>)
    requires
        is_listing(m, es),
        es.len() > 0,
    ensures
        is_listing(m.remove(es[0].0), es.drop_first()),
{
    let k0 = es[0].0;
    let m1 = m.remove(k0);
    let tail = es.drop_first();
    assert(tail =~= es.subrange(1, es.len() as int));
    lemma_lex_lt_irreflexive(k0);
    assert forall|i: int| 0 <= i < tail.len() implies m1.contains_key(#[trigger] tail[i].0)
        && m1[tail[i].0] == tail[i].1 by {
        assert(tail[i] == es[i + 1]);
        assert(lex_lt(es[0].0, es[i + 1].0));
        assert(tail[i].0 != k0);
    }
    assert forall|k: Seq<u8>| #[trigger] m1.contains_key(k) implies exists|i: int|
        0 <= i < tail.len() && (#[trigger] tail[i].0) == k by {
        assert(m.contains_key(k));
        let i = choose|i: int| 0 <= i < es.len() && (#[trigger] es[i].0) == k;
        assert(k != k0);
        assert(i > 0);
        assert(tail[i - 1] == es[i]);
        assert(0 <= i - 1 < tail.len() && tail[i - 1].0 == k);
    }
}

/// Law: a listing of contents holding exactly the records at `a` and
/// `b`, with `a` lexicographically below `b`, lists the record at `a`
/// first — whatever order the records were inserted in.
pub proof fn lemma_listing_two(
    m: Map<Seq<u8>, Seq<u8>>,
    a: Seq<u8>,
    b: Seq<u8>,
    es: Seq<(Seq<u8>, Seq<u8>)>,
)
    requires
        lex_lt(a, b),
        m.dom() == set![a, b],
        is_listing(m, es),
    ensures
        es == seq![(a, m[a]), (b, m[b])],
{
    lemma_lex_lt_irreflexive(a);
    lemma_lex_lt_irreflexive(b);
    lemma_lex_lt_asymmetric(a, b);
    assert(m.contains_key(a) && m.contains_key(b)) by {
        assert(set![a, b].contains(a) && set![a, b].contains(b));
    }
    assert(a != b);
    let i = choose|i: int| 0 <= i < es.len() && es[i].0 == a;
    let j = choose|j: int| 0 <= j < es.len() && es[j].0 == b;
    assert(0 <= i < es.len() && es[i].0 == a);
    assert(0 <= j < es.len() && es[j].0 == b);
    assert(i != j);
    assert forall|t: int| 0 <= t < es.len() implies es[t].0 == a || es[t].0 == b by {
        assert(m.contains_key(es[t].0));
        assert(m.dom().contains(es[t].0));
    }
    assert(es.len() >= 2);
    if es.len() > 2 {
        assert(lex_lt(es[0].0, es[1].0) && lex_lt(es[1].0, es[2].0));
        assert(false);
    }
    if es[0].0 == b {
        assert(es[1].0 == a);
        assert(lex_lt(es[0].0, es[1].0));
        assert(false);
    }
    assert(es[0].0 == a && es[1].0 == b);
    assert(es[0].1 == m[a] && es[1].1 == m[b]);
    assert(es =~= seq![(a, m[a]), (b, m[b])]);
}

/// Law: scanning contents that hold exactly two records yields the
/// one at the lexicographically smaller key first, whatever order the
/// two were inserted in.
pub proof fn lemma_scan_two_records<T: HiveBoxable>(
    m: Map<Seq<u8>, Seq<u8>>,
    es: Seq<(Seq<u8>, Seq<u8>)>,
    ka: Seq<u8>,
    kb: Seq<u8>,
    va: T::V,
    vb: T::V,
)
    requires
        lex_lt(ka, kb),
        m.dom() == set![ka, kb],
        T::wf_view(va),
        T::wf_view(vb),
        m[ka] == T::encoding_of(va),
        m[kb] == T::encoding_of(vb),
        is_listing(m, es),
    ensures
        decoded_values::<T>(es) == seq![va, vb],
{
    lemma_listing_two(m, ka, kb, es);
    lemma_round_trip::<T>(va);
    lemma_round_trip::<T>(vb);
    assert(es.drop_last() =~= seq![(ka, m[ka])]);
    assert(es.drop_last().drop_last() =~= Seq::<(Seq<u8>, Seq<u8>)>::empty());
    assert(decoded_values::<T>(es.drop_last().drop_last()) =~= Seq::<T::V>::empty());
    assert(es.drop_last().last().1 == T::encoding_of(va));
    assert(decoded_values::<T>(es.drop_last()) =~= seq![va]);
    assert(es.last().1 == T::encoding_of(vb));
    assert(decoded_values::<T>(es) =~= seq![va, vb]);
}

/// Law: reconciling against contents with no record at `name` seeds
/// the default: it is persisted at `name` and held in memory.
pub proof fn lemma_first_run<T: HiveBoxable>(
    m0: Map<Seq<u8>, Seq<u8>>,
    name: Seq<u8>,
    dflt: T::V,
    v: T::V,
    m1: Map<Seq<u8>, Seq<u8>>,
)
    requires
        !m0.contains_key(name),
        reconciled::<T>(m0, name, dflt, v, m1),
    ensures
        seed_outcome::<T>(m0, name, dflt, v, m1),
        v == dflt,
        m1 == m0.insert(name, T::encoding_of(dflt)),
{
}

/// Law: where the record standing at `name` encodes `p` and the engine
/// hands it over (the adoption arm), reconciliation returns exactly
/// `p`, writes nothing, and discards the default entirely.
pub proof fn lemma_restart_adopts<T: HiveBoxable>(
    m0: Map<Seq<u8>, Seq<u8>>,
    name: Seq<u8>,
    p: T::V,
    v: T::V,
    m1: Map<Seq<u8>, Seq<u8>>,
)
    requires
        T::wf_view(p),
        m0.contains_key(name),
        m0[name] == T::encoding_of(p),
        adopt_outcome::<T>(m0, name, v, m1),
    ensures
        v == p,
        m1 == m0,
{
    lemma_round_trip::<T>(p);
}

/// Law: reconciliation never invents state — the value held afterwards
/// is the usable persisted one or the caller's default, nothing else.
pub proof fn lemma_reconcile_no_invention<T: HiveBoxable>(
    m0: Map<Seq<u8>, Seq<u8>>,
    name: Seq<u8>,
    dflt: T::V,
    v: T::V,
    m1: Map<Seq<u8>, Seq<u8>>,
)
    requires
        reconciled::<T>(m0, name, dflt, v, m1),
    ensures
        v == dflt || (prior_usable::<T>(m0, name) && v == decode_of::<T>(m0[name]).unwrap()),
{
}

/// Law: a fresh reconciliation against contents just written with
/// `v2` adopts `v2` whenever the engine hands the record over, and can
/// otherwise only re-seed the supplied default — never anything else.
pub proof fn lemma_reinitialize_after_set<T: HiveBoxable>(
    m0: Map<Seq<u8>, Seq<u8>>,
    name: Seq<u8>,
    v2: T::V,
    dflt: T::V,
    v: T::V,
    m1: Map<Seq<u8>, Seq<u8>>,
)
    requires
        T::wf_view(v2),
        reconciled::<T>(m0.insert(name, T::encoding_of(v2)), name, dflt, v, m1),
    ensures
        v == v2 || v == dflt,
        adopt_outcome::<T>(m0.insert(name, T::encoding_of(v2)), name, v, m1) ==> v == v2,
{
    lemma_round_trip::<T>(v2);
}

/// Some raw entry of `es` carries key `p.0` and bytes decoding to `p.1`.
pub open spec fn entry_source<T: HiveBoxable>(es: Seq<(Seq<u8>, Seq<u8>)>, p: (Seq<u8>, T::V)) -> bool {
    exists|i: int|
        0 <= i < es.len() && (#[trigger] es[i]).0 == p.0 && decode_of::<T>(es[i].1) == Some(p.1)
}

/// Each scanned entry stems from a raw entry whose bytes decode to it.
pub proof fn lemma_decoded_entries_sound<T: HiveBoxable>(es: Seq<(Seq<u8>, Seq<u8>)>)
    ensures
        forall|j: int|
            0 <= j < decoded_entries::<T>(es).len() ==> entry_source::<T>(
                es,
                #[trigger] decoded_entries::<T>(es)[j],
            ),
    decreases es.len(),
{
    if es.len() > 0 {
        lemma_decoded_entries_sound::<T>(es.drop_last());
        let d = decoded_entries::<T>(es);
        let dp = decoded_entries::<T>(es.drop_last());
        assert forall|j: int| 0 <= j < d.len() implies entry_source::<T>(es, d[j]) by {
            if j < dp.len() {
                assert(entry_source::<T>(es.drop_last(), dp[j]));
                let i = choose|i: int|
                    0 <= i < es.drop_last().len() && (#[trigger] es.drop_last()[i]).0 == dp[j].0
                        && decode_of::<T>(es.drop_last()[i].1) == Some(dp[j].1);
                assert(es[i] == es.drop_last()[i]);
                assert(d[j] == dp[j]);
                assert(0 <= i < es.len() && es[i].0 == d[j].0 && decode_of::<T>(es[i].1) == Some(
                    d[j].1,
                ));
            } else {
                let i = es.len() - 1;
                assert(0 <= i < es.len() && es[i].0 == d[j].0 && decode_of::<T>(es[i].1) == Some(
                    d[j].1,
                ));
            }
        }
    }
}

/// A raw entry whose bytes decode appears among the scanned entries.
pub proof fn lemma_decoded_entries_complete<T: HiveBoxable>(es: Seq<(Seq<u8>, Seq<u8>)>, i: int)
    requires
        0 <= i < es.len(),
        decode_of::<T>(es[i].1) is Some,
    ensures
        exists|j: int|
            0 <= j < decoded_entries::<T>(es).len() && #[trigger] decoded_entries::<T>(es)[j] == (
                es[i].0,
                decode_of::<T>(es[i].1).unwrap(),
            ),
    decreases es.len(),
{
    let d = decoded_entries::<T>(es);
    if i == es.len() - 1 {
        assert(es.last() == es[i]);
        assert(d[d.len() - 1] == (es[i].0, decode_of::<T>(es[i].1).unwrap()));
    } else {
        let dl = es.drop_last();
        assert(dl[i] == es[i]);
        lemma_decoded_entries_complete::<T>(dl, i);
        let j = choose|j: int|
            0 <= j < decoded_entries::<T>(dl).len() && #[trigger] decoded_entries::<T>(dl)[j] == (
                dl[i].0,
                decode_of::<T>(dl[i].1).unwrap(),
            );
        assert(d[j] == (es[i].0, decode_of::<T>(es[i].1).unwrap()));
    }
}

/// Law: a scan preserves the ascending key order of the records it
/// keeps — skipping malformed records reorders nothing.
pub proof fn lemma_decoded_entries_sorted<T: HiveBoxable>(es: Seq<(Seq<u8>, Seq<u8>)>)
    requires
        forall|i: int, j: int|
            0 <= i < j < es.len() ==> lex_lt(#[trigger] es[i].0, #[trigger] es[j].0),
    ensures
        forall|i: int, j: int|
            0 <= i < j < decoded_entries::<T>(es).len() ==> lex_lt(
                (#[trigger] decoded_entries::<T>(es)[i]).0,
                (#[trigger] decoded_entries::<T>(es)[j]).0,
            ),
    decreases es.len(),
{
    let d = decoded_entries::<T>(es);
    if es.len() > 0 {
        let dl = es.drop_last();
        assert(dl =~= es.subrange(0, es.len() - 1));
        assert forall|i: int, j: int| 0 <= i < j < dl.len() implies lex_lt(
            #[trigger] dl[i].0,
            #[trigger] dl[j].0,
        ) by {
            assert(dl[i] == es[i] && dl[j] == es[j]);
        }
        lemma_decoded_entries_sorted::<T>(dl);
        lemma_decoded_entries_sound::<T>(dl);
        let dp = decoded_entries::<T>(dl);
        assert forall|i: int, j: int| 0 <= i < j < d.len() implies lex_lt(
            (#[trigger] d[i]).0,
            (#[trigger] d[j]).0,
        ) by {
            if j < dp.len() {
                assert(d[i] == dp[i] && d[j] == dp[j]);
            } else {
                assert(d[i] == dp[i]);
                assert(entry_source::<T>(dl, dp[i]));
                let t = choose|t: int|
                    0 <= t < dl.len() && (#[trigger] dl[t]).0 == dp[i].0 && decode_of::<T>(
                        dl[t].1,
                    ) == Some(dp[i].1);
                assert(dl[t] == es[t]);
                assert(lex_lt(es[t].0, es[es.len() - 1].0));
                assert(d[j].0 == es.last().0);
            }
        }
    }
}

/// Law: a scan surfaces every decodable record, under its own key.
pub proof fn lemma_scan_yields_decodable<T: HiveBoxable>(
    m: Map<Seq<u8>, Seq<u8>>,
    es: Seq<(Seq<u8>, Seq<u8>)>,
    k: Seq<u8>,
)
    requires
        is_listing(m, es),
        m.contains_key(k),
        decode_of::<T>(m[k]) is Some,
    ensures
        exists|j: int|
            0 <= j < decoded_entries::<T>(es).len() && #[trigger] decoded_entries::<T>(es)[j] == (
                k,
                decode_of::<T>(m[k]).unwrap(),
            ),
{
    let i = choose|i: int| 0 <= i < es.len() && (#[trigger] es[i].0) == k;
    assert(0 <= i < es.len() && es[i].0 == k);
    assert(m[es[i].0] == es[i].1);
    lemma_decoded_entries_complete::<T>(es, i);
}

/// Law: a record whose bytes decode to nothing is skipped by a scan —
/// it yields no entry and no error, and its key is never surfaced.
pub proof fn lemma_scan_skips_malformed<T: HiveBoxable>(
    m: Map<Seq<u8>, Seq<u8>>,
    es: Seq<(Seq<u8>, Seq<u8>)>,
    k: Seq<u8>,
)
    requires
        is_listing(m, es),
        m.contains_key(k),
        decode_of::<T>(m[k]) is None,
    ensures
        forall|j: int|
            0 <= j < decoded_entries::<T>(es).len() ==> (#[trigger] decoded_entries::<T>(es)[j]).0
                != k,
{
    lemma_decoded_entries_sound::<T>(es);
    let d = decoded_entries::<T>(es);
    assert forall|j: int| 0 <= j < d.len() implies d[j].0 != k by {
        assert(entry_source::<T>(es, d[j]));
        let i = choose|i: int|
            0 <= i < es.len() && (#[trigger] es[i]).0 == d[j].0 && decode_of::<T>(es[i].1) == Some(
                d[j].1,
            );
        if d[j].0 == k {
            assert(m.contains_key(es[i].0) && m[es[i].0] == es[i].1);
            assert(decode_of::<T>(es[i].1) is None);
            assert(false);
        }
    }
}

} // verus!
