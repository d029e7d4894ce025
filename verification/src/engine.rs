//! The trusted boundary to the embedded engine: an ordered byte-key
//! store whose contents are modelled as a map from byte keys to byte
//! values, and whose iteration order is ascending byte-key order.

use vstd::prelude::*;

verus! {

#[verifier::external_type_specification]
#[verifier::external_body]
pub struct ExDb(sled::Db);

#[verifier::external_type_specification]
#[verifier::external_body]
pub struct ExSledError(sled::Error);

/// The keyed contents of an engine handle.
pub uninterp spec fn db_view(db: sled::Db) -> Map<Seq<u8>, Seq<u8>>;

/// Strict lexicographic order on byte keys.
pub open spec fn lex_lt(a: Seq<u8>, b: Seq<u8>) -> bool
    decreases a.len(),
{
    if b.len() == 0 {
        false
    } else if a.len() == 0 {
        true
    } else if a[0] < b[0] {
        true
    } else if a[0] > b[0] {
        false
    } else {
        lex_lt(a.drop_first(), b.drop_first())
    }
}

/// The deep views of a vector of raw entries.
pub open spec fn entry_views(es: Seq<(Vec<u8>, Vec<u8>)>) -> Seq<(Seq<u8>, Seq<u8>)> {
    es.map_values(|p: (Vec<u8>, Vec<u8>)| (p.0@, p.1@))
}

/// `es` lists exactly the entries of `m`, in ascending byte-key order.
pub open spec fn is_listing(m: Map<Seq<u8>, Seq<u8>>, es: Seq<(Seq<u8>, Seq<u8>)>) -> bool {
    &&& forall|i: int, j: int| 0 <= i < j < es.len() ==> lex_lt(#[trigger] es[i].0, #[trigger] es[j].0)
    &&& forall|i: int|
        0 <= i < es.len() ==> m.contains_key(#[trigger] es[i].0) && m[es[i].0] == es[i].1
    &&& forall|k: Seq<u8>|
        #[trigger] m.contains_key(k) ==> exists|i: int| 0 <= i < es.len() && (#[trigger] es[i].0)
            == k
}

/// Relies on sled::Config::open with temporary(true): a fresh,
/// empty, non-durable tree.
#[verifier::external_body]
pub(crate) fn open_transient_db() -> (r: Result<sled::Db, sled::Error>)
    ensures
        match r {
            Ok(db) => db_view(db) == Map::<Seq<u8>, Seq<u8>>::empty(),
            Err(_) => true,
        },
{
    sled::Config::new().temporary(true).open()
}

/// Relies on sled::open: opens or creates a durable tree at the given
/// path; nothing is known of the contents it recovers.
#[verifier::external_body]
pub(crate) fn open_db_at(path: &str) -> (r: Result<sled::Db, sled::Error>) {
    sled::open(path)
}

/// Relies on sled::Tree::get: the value stored under the key, if any.
#[verifier::external_body]
pub(crate) fn db_get(db: &sled::Db, key: &[u8]) -> (r: Result<Option<Vec<u8>>, sled::Error>)
    ensures
        match r {
            Ok(Some(v)) => db_view(*db).contains_key(key@) && db_view(*db)[key@] == v@,
            Ok(None) => !db_view(*db).contains_key(key@),
            Err(_) => true,
        },
{
    match db.get(key) {
        Ok(Some(ivec)) => Ok(Some(ivec.to_vec())),
        Ok(None) => Ok(None),
        Err(e) => Err(e),
    }
}

/// Relies on sled::Tree::insert: sets the key to the value, replacing
/// any previous value.
#[verifier::external_body]
pub(crate) fn db_insert(db: &mut sled::Db, key: &[u8], value: &[u8]) -> (r: Result<
    (),
    sled::Error,
>)
    ensures
        match r {
            Ok(_) => db_view(*final(db)) == db_view(*old(db)).insert(key@, value@),
            Err(_) => true,
        },
{
    match db.insert(key, value) {
        Ok(_) => Ok(()),
        Err(e) => Err(e),
    }
}

/// Relies on sled::Tree::remove: deletes the key's record if present;
/// absence is not an error.
#[verifier::external_body]
pub(crate) fn db_remove(db: &mut sled::Db, key: &[u8]) -> (r: Result<(), sled::Error>)
    ensures
        match r {
            Ok(_) => db_view(*final(db)) == db_view(*old(db)).remove(key@),
            Err(_) => true,
        },
{
    match db.remove(key) {
        Ok(_) => Ok(()),
        Err(e) => Err(e),
    }
}

/// Relies on sled::Tree::iter: yields every entry of the tree in
/// ascending lexicographic byte-key order; the first iteration error,
/// if any, is returned instead.
#[verifier::external_body]
pub(crate) fn db_entries(db: &sled::Db) -> (r: Result<Vec<(Vec<u8>, Vec<u8>)>, sled::Error>)
    ensures
        match r {
            Ok(es) => is_listing(db_view(*db), entry_views(es@)),
            Err(_) => true,
        },
{
    db.iter().map(|kv| kv.map(|(k, v)| (k.to_vec(), v.to_vec()))).collect()
}

} // verus!
