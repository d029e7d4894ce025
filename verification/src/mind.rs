//! The name-keyed store: a wrapper over one engine handle whose keys
//! are raw byte names and whose value type is chosen per call.

use vstd::prelude::*;
use crate::codec::{HiveBoxable, decode_of, decoded_values, decoded_entries};
use crate::codec::{decode_value_vec, decode_entry_vec, lemma_decode_of_encoding};
use crate::engine::{db_view, db_get, db_insert, db_entries, is_listing};
use crate::errors::HiveError;

verus! {

/// A name-keyed store over one engine handle, the backing collaborator
/// for cached singletons. Its view is the keyed byte contents of the
/// engine.
pub struct HiveMind {
    db: sled::Db,
}

impl View for HiveMind {
    type V = Map<Seq<u8>, Seq<u8>>;

    closed spec fn view(&self) -> Map<Seq<u8>, Seq<u8>> {
        db_view(self.db)
    }
}

impl HiveMind {
    /// Wraps an already-opened engine handle.
    pub fn new(db: sled::Db) -> (r: Self)
        ensures
            r@ == db_view(db),
    {
        HiveMind { db }
    }

    /// Reads and decodes the record under the name. Absence is
    /// reported as `NotFound`, undecodable bytes as `Codec`.
    pub fn get<T: HiveBoxable>(&self, name: &[u8]) -> (r: Result<T, HiveError>)
        ensures
            match r {
                Ok(v) => self@.contains_key(name@) && decode_of::<T>(self@[name@]) == Some(v@),
                Err(HiveError::NotFound) => !self@.contains_key(name@),
                Err(HiveError::Codec) => self@.contains_key(name@) && decode_of::<T>(self@[name@])
                    is None,
                Err(HiveError::Engine(_)) => true,
            },
    {
        match db_get(&self.db, name) {
            Ok(Some(bytes)) => match T::decode(bytes.as_slice()) {
                Some(v) => {
                    proof {
                        lemma_decode_of_encoding::<T>(bytes@, v@);
                    }
                    Ok(v)
                },
                None => Err(HiveError::Codec),
            },
            Ok(None) => Err(HiveError::NotFound),
            Err(e) => Err(HiveError::Engine(e)),
        }
    }

    /// Serializes the value and writes it under the name.
    pub fn set<T: HiveBoxable>(&mut self, name: &[u8], value: &T) -> (r: Result<(), HiveError>)
        ensures
            T::wf_view(value@),
            match r {
                Ok(_) => final(self)@ == old(self)@.insert(name@, T::encoding_of(value@)),
                Err(e) => e is Engine,
            },
    {
        let bytes = value.encode();
        match db_insert(&mut self.db, name, bytes.as_slice()) {
            Ok(_) => Ok(()),
            Err(e) => Err(HiveError::Engine(e)),
        }
    }

    /// Writes a pre-serialized payload directly, bypassing the codec.
    /// The caller answers for the bytes being a valid encoding of what
    /// is later read.
    pub fn set_bytes(&mut self, name: &[u8], value: &[u8]) -> (r: Result<(), HiveError>)
        ensures
            match r {
                Ok(_) => final(self)@ == old(self)@.insert(name@, value@),
                Err(e) => e is Engine,
            },
    {
        match db_insert(&mut self.db, name, value) {
            Ok(_) => Ok(()),
            Err(e) => Err(HiveError::Engine(e)),
        }
    }

    /// Decodes every record of the store, in ascending byte-key order,
    /// silently skipping records that fail to decode; an engine failure
    /// during iteration yields the empty sequence.
    pub fn iter<T: HiveBoxable>(&self) -> (r: Vec<T>)
        ensures
            (exists|es: Seq<(Seq<u8>, Seq<u8>)>|
                is_listing(self@, es) && r@.map_values(|v: T| v@) == decoded_values::<T>(es)) || r@
                == Seq::<T>::empty(),
    {
        match db_entries(&self.db) {
            Ok(es) => decode_value_vec::<T>(&es),
            Err(_) => Vec::new(),
        }
    }

    /// Like [`Self::iter`], but yields each record's raw key alongside
    /// its decoded value. The key of a record that fails to decode is
    /// not surfaced.
    pub fn iter_with_keys<T: HiveBoxable>(&self) -> (r: Vec<(Vec<u8>, T)>)
        ensures
            (exists|es: Seq<(Seq<u8>, Seq<u8>)>|
                is_listing(self@, es) && r@.map_values(|p: (Vec<u8>, T)| (p.0@, p.1@))
                    == decoded_entries::<T>(es)) || r@ == Seq::<(Vec<u8>, T)>::empty(),
    {
        match db_entries(&self.db) {
            Ok(es) => decode_entry_vec::<T>(&es),
            Err(_) => Vec::new(),
        }
    }
}

} // verus!
