//! The typed store: keyed CRUD, content-hash CRUD and ordered full
//! scans over one engine handle, for one value type.

use vstd::prelude::*;
use vstd::string::StringSliceAdditionalSpecFns;
use core::marker::PhantomData;
use crate::bytes_le::{le64, u64_to_le_bytes};
use crate::codec::{HiveBoxable, decode_of, decoded_values, lemma_decode_of_encoding};
use crate::codec::decode_value_vec;
use crate::engine::{db_view, db_get, db_insert, db_remove, db_entries, is_listing};
use crate::engine::{open_db_at, open_transient_db};
use crate::errors::HiveError;

verus! {

/// A typed store over one engine handle. Its view is the keyed byte
/// contents of the engine; every operation relates the typed boundary
/// to that map through the codec.
pub struct HiveBox<T: HiveBoxable> {
    db: sled::Db,
    values: PhantomData<T>,
}

impl<T: HiveBoxable> View for HiveBox<T> {
    type V = Map<Seq<u8>, Seq<u8>>;

    closed spec fn view(&self) -> Map<Seq<u8>, Seq<u8>> {
        db_view(self.db)
    }
}

impl<T: HiveBoxable> HiveBox<T> {
    /// Opens or creates a durable store at the given path. Nothing is
    /// known of the contents a pre-existing store holds until read.
    pub fn new(path: &str) -> (r: Result<Self, sled::Error>) {
        match open_db_at(path) {
            Ok(db) => Ok(HiveBox { db, values: PhantomData }),
            Err(e) => Err(e),
        }
    }

    /// Opens a private, empty, non-durable store.
    pub fn memory() -> (r: Result<Self, sled::Error>)
        ensures
            match r {
                Ok(s) => s@ == Map::<Seq<u8>, Seq<u8>>::empty(),
                Err(_) => true,
            },
    {
        match open_transient_db() {
            Ok(db) => Ok(HiveBox { db, values: PhantomData }),
            Err(e) => Err(e),
        }
    }

    /// Serializes the value and writes it under the key, replacing any
    /// previous record.
    pub fn insert(&mut self, key: &str, value: T) -> (r: Result<(), HiveError>)
        ensures
            T::wf_view(value@),
            match r {
                Ok(_) => final(self)@ == old(self)@.insert(
                    key.spec_bytes(),
                    T::encoding_of(value@),
                ),
                Err(e) => e is Engine,
            },
    {
        let bytes = value.encode();
        match db_insert(&mut self.db, key.as_bytes(), bytes.as_slice()) {
            Ok(_) => Ok(()),
            Err(e) => Err(HiveError::Engine(e)),
        }
    }

    /// Writes a pre-serialized payload directly, bypassing the codec.
    /// No decoding guarantee is implied for later typed reads.
    pub fn insert_bytes(&mut self, key: &[u8], bytes: &[u8]) -> (r: Result<(), HiveError>)
        ensures
            match r {
                Ok(_) => final(self)@ == old(self)@.insert(key@, bytes@),
                Err(e) => e is Engine,
            },
    {
        match db_insert(&mut self.db, key, bytes) {
            Ok(_) => Ok(()),
            Err(e) => Err(HiveError::Engine(e)),
        }
    }

    /// Reads and decodes the record under the key. Absence is reported
    /// as `NotFound`, undecodable bytes as `Codec`.
    pub fn get(&self, key: &str) -> (r: Result<T, HiveError>)
        ensures
            match r {
                Ok(v) => self@.contains_key(key.spec_bytes()) && decode_of::<T>(
                    self@[key.spec_bytes()],
                ) == Some(v@),
                Err(HiveError::NotFound) => !self@.contains_key(key.spec_bytes()),
                Err(HiveError::Codec) => self@.contains_key(key.spec_bytes()) && decode_of::<T>(
                    self@[key.spec_bytes()],
                ) is None,
                Err(HiveError::Engine(_)) => true,
            },
    {
        match db_get(&self.db, key.as_bytes()) {
            Ok(Some(bytes)) => match T::decode(bytes.as_slice()) {
                Some(v) => {
                    proof {
                        lemma_decode_of_encoding::<T>(bytes@, v@);
                    }
                    Ok(v)
                },
                None => Err(HiveError::Codec),
            },
            Ok(None) => Err(HiveError::NotFound),
            Err(e) => Err(HiveError::Engine(e)),
        }
    }

    /// Removes the record under the key; absence is not an error.
    pub fn remove(&mut self, key: &str) -> (r: Result<(), sled::Error>)
        ensures
            match r {
                Ok(_) => final(self)@ == old(self)@.remove(key.spec_bytes()),
                Err(_) => true,
            },
    {
        db_remove(&mut self.db, key.as_bytes())
    }

    /// Decodes every record of the store, in ascending byte-key order,
    /// silently skipping records that fail to decode; an engine failure
    /// during iteration yields the empty sequence.
    pub fn iter(&self) -> (r: Vec<T>)
        ensures
            (exists|es: Seq<(Seq<u8>, Seq<u8>)>|
                is_listing(self@, es) && r@.map_values(|v: T| v@) == decoded_values::<T>(es)) || r@
                == Seq::<T>::empty(),
    {
        match db_entries(&self.db) {
            Ok(es) => decode_value_vec::<T>(&es),
            Err(_) => Vec::new(),
        }
    }

    /// Materializes [`Self::iter`].
    pub fn vec(&self) -> (r: Vec<T>)
        ensures
            (exists|es: Seq<(Seq<u8>, Seq<u8>)>|
                is_listing(self@, es) && r@.map_values(|v: T| v@) == decoded_values::<T>(es)) || r@
                == Seq::<T>::empty(),
    {
        self.iter()
    }

    /// Writes the value under its content-derived key: the eight bytes
    /// of its identity hash. Re-adding a value with the same identity
    /// replaces the stored payload.
    pub fn add(&mut self, value: T) -> (r: Result<(), HiveError>)
        ensures
            T::wf_view(value@),
            match r {
                Ok(_) => final(self)@ == old(self)@.insert(
                    le64(T::identity_of(value@)),
                    T::encoding_of(value@),
                ),
                Err(e) => e is Engine,
            },
    {
        let bytes = value.encode();
        let key = u64_to_le_bytes(value.identity_hash());
        match db_insert(&mut self.db, key.as_slice(), bytes.as_slice()) {
            Ok(_) => Ok(()),
            Err(e) => Err(HiveError::Engine(e)),
        }
    }

    /// Looks the query value's identity up and returns the stored
    /// value of that identity: the canonical stored twin, not the
    /// query value itself.
    pub fn exact(&self, value: &T) -> (r: Result<T, HiveError>)
        ensures
            match r {
                Ok(v) => self@.contains_key(le64(T::identity_of(value@))) && decode_of::<T>(
                    self@[le64(T::identity_of(value@))],
                ) == Some(v@),
                Err(HiveError::NotFound) => !self@.contains_key(le64(T::identity_of(value@))),
                Err(HiveError::Codec) => self@.contains_key(le64(T::identity_of(value@)))
                    && decode_of::<T>(self@[le64(T::identity_of(value@))]) is None,
                Err(HiveError::Engine(_)) => true,
            },
    {
        let key = u64_to_le_bytes(value.identity_hash());
        match db_get(&self.db, key.as_slice()) {
            Ok(Some(bytes)) => match T::decode(bytes.as_slice()) {
                Some(v) => {
                    proof {
                        lemma_decode_of_encoding::<T>(bytes@, v@);
                    }
                    Ok(v)
                },
                None => Err(HiveError::Codec),
            },
            Ok(None) => Err(HiveError::NotFound),
            Err(e) => Err(HiveError::Engine(e)),
        }
    }

    /// Removes the record stored under the value's identity; absence
    /// is not an error.
    pub fn remove_dublicate(&mut self, value: &T) -> (r: Result<(), HiveError>)
        ensures
            match r {
                Ok(_) => final(self)@ == old(self)@.remove(le64(T::identity_of(value@))),
                Err(e) => e is Engine,
            },
    {
        let key = u64_to_le_bytes(value.identity_hash());
        match db_remove(&mut self.db, key.as_slice()) {
            Ok(_) => Ok(()),
            Err(e) => Err(HiveError::Engine(e)),
        }
    }
}

} // verus!
