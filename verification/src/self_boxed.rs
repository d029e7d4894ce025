//! The cached singleton: an in-memory value optionally bound to one
//! record of a name-keyed store, reconciled once at construction and
//! kept convergent with storage on every mutation.

use vstd::prelude::*;
use crate::codec::{HiveBoxable, decode_of};
use crate::errors::HiveError;
use crate::mind::HiveMind;

verus! {

/// A usable prior record stands at `name`: one is stored and decodes.
pub open spec fn prior_usable<T: HiveBoxable>(m: Map<Seq<u8>, Seq<u8>>, name: Seq<u8>) -> bool {
    m.contains_key(name) && decode_of::<T>(m[name]) is Some
}

/// Adoption: memory takes the persisted value; storage is untouched
/// and the caller's default is discarded.
pub open spec fn adopt_outcome<T: HiveBoxable>(
    m0: Map<Seq<u8>, Seq<u8>>,
    name: Seq<u8>,
    v: T::V,
    m1: Map<Seq<u8>, Seq<u8>>,
) -> bool {
    &&& prior_usable::<T>(m0, name)
    &&& v == decode_of::<T>(m0[name]).unwrap()
    &&& m1 == m0
}

/// Seeding: the caller's default is persisted at `name` and kept in
/// memory.
pub open spec fn seed_outcome<T: HiveBoxable>(
    m0: Map<Seq<u8>, Seq<u8>>,
    name: Seq<u8>,
    dflt: T::V,
    v: T::V,
    m1: Map<Seq<u8>, Seq<u8>>,
) -> bool {
    &&& v == dflt
    &&& m1 == m0.insert(name, T::encoding_of(dflt))
}

/// What reconciliation may produce: adoption of a usable prior record
/// or seeding of the default — and, where no usable prior record
/// exists, necessarily seeding. (A prior record that the engine fails
/// to hand over is treated as unusable and seeded over; that is the
/// one source of freedom here.)
pub open spec fn reconciled<T: HiveBoxable>(
    m0: Map<Seq<u8>, Seq<u8>>,
    name: Seq<u8>,
    dflt: T::V,
    v: T::V,
    m1: Map<Seq<u8>, Seq<u8>>,
) -> bool {
    &&& adopt_outcome::<T>(m0, name, v, m1) || seed_outcome::<T>(m0, name, dflt, v, m1)
    &&& !prior_usable::<T>(m0, name) ==> seed_outcome::<T>(m0, name, dflt, v, m1)
}

/// A type that owns a fixed byte name for its singleton record.
pub trait HiveNamed {
    /// The name, as a byte sequence.
    spec fn hive_name_spec() -> Seq<u8>;

    /// The fixed name under which values of this type are stored.
    fn hive_name() -> (r: Vec<u8>)
        ensures
            r@ == Self::hive_name_spec(),
    ;
}

/// An in-memory value cell, optionally bound to one record of a
/// name-keyed store. Constructed once through reconciliation; every
/// successful mutation persists before it replaces memory.
pub struct SelfHiveBoxed<T: HiveBoxable> {
    hive_mind: Option<HiveMind>,
    name: Vec<u8>,
    value: T,
}

impl<T: HiveBoxable> SelfHiveBoxed<T> {
    /// Whether a backing store is bound.
    pub closed spec fn is_bound(&self) -> bool {
        self.hive_mind is Some
    }

    /// The bound store's keyed contents.
    pub closed spec fn store_map(&self) -> Map<Seq<u8>, Seq<u8>> {
        self.hive_mind.unwrap()@
    }

    /// The byte name of the backing record.
    pub closed spec fn name_view(&self) -> Seq<u8> {
        self.name@
    }

    /// The view of the in-memory value.
    pub closed spec fn value_view(&self) -> T::V {
        self.value@
    }

    /// Builds a cell holding `value` and, where a store is supplied,
    /// persists `value` at `name` first.
    pub fn new(hive_mind: Option<HiveMind>, name: Vec<u8>, value: T) -> (r: Result<
        Self,
        HiveError,
    >)
        ensures
            hive_mind is None ==> r is Ok,
            match r {
                Ok(s) => s.name_view() == name@ && s.value_view() == value@ && (match hive_mind {
                    Some(m) => s.is_bound() && s.store_map() == m@.insert(
                        name@,
                        T::encoding_of(value@),
                    ),
                    None => !s.is_bound(),
                }),
                Err(e) => e is Engine,
            },
    {
        match hive_mind {
            Some(mut m) => match m.set::<T>(name.as_slice(), &value) {
                Ok(_) => Ok(SelfHiveBoxed { hive_mind: Some(m), name, value }),
                Err(e) => Err(e),
            },
            None => Ok(SelfHiveBoxed { hive_mind: None, name, value }),
        }
    }

    /// Reconciles memory with storage: adopts a usable prior record at
    /// `name`, else seeds `value` there. Unsupplied store: the cell is
    /// purely in-memory, holding `value`. A failure to persist the
    /// seed is fatal and surfaces as an engine error.
    pub fn initialize(hive_mind: Option<HiveMind>, name: Vec<u8>, value: T) -> (r: Result<
        Self,
        HiveError,
    >)
        ensures
            T::wf_view(value@),
            hive_mind is None ==> r is Ok,
            match r {
                Ok(s) => s.name_view() == name@ && (match hive_mind {
                    Some(m) => s.is_bound() && reconciled::<T>(
                        m@,
                        name@,
                        value@,
                        s.value_view(),
                        s.store_map(),
                    ),
                    None => !s.is_bound() && s.value_view() == value@,
                }),
                Err(e) => e is Engine,
            },
    {
        let bytes = value.encode();
        match hive_mind {
            None => Ok(SelfHiveBoxed { hive_mind: None, name, value }),
            Some(m) => match m.get::<T>(name.as_slice()) {
                Ok(prior) => Ok(SelfHiveBoxed { hive_mind: Some(m), name, value: prior }),
                Err(_) => {
                    let mut m = m;
                    match m.set_bytes(name.as_slice(), bytes.as_slice()) {
                        Ok(_) => Ok(SelfHiveBoxed { hive_mind: Some(m), name, value }),
                        Err(e) => Err(e),
                    }
                },
            },
        }
    }

    /// Adopts the record at `name` into a fresh cell; absence or an
    /// undecodable record is an error, and nothing is written.
    pub fn get(hive_mind: HiveMind, name: Vec<u8>) -> (r: Result<Self, HiveError>)
        ensures
            match r {
                Ok(s) => s.is_bound() && s.name_view() == name@ && s.store_map() == hive_mind@
                    && prior_usable::<T>(hive_mind@, name@) && s.value_view() == decode_of::<T>(
                    hive_mind@[name@],
                ).unwrap(),
                Err(HiveError::NotFound) => !hive_mind@.contains_key(name@),
                Err(HiveError::Codec) => hive_mind@.contains_key(name@) && decode_of::<T>(
                    hive_mind@[name@],
                ) is None,
                Err(HiveError::Engine(_)) => true,
            },
    {
        match hive_mind.get::<T>(name.as_slice()) {
            Ok(value) => Ok(SelfHiveBoxed { hive_mind: Some(hive_mind), name, value }),
            Err(e) => Err(e),
        }
    }

    /// Replaces the value: persists it first where a store is bound,
    /// and only then commits it to memory, so a failure leaves memory
    /// unchanged (storage may then be ahead of memory, never behind).
    pub fn set(&mut self, value: T) -> (r: Result<(), HiveError>)
        ensures
            T::wf_view(value@),
            !old(self).is_bound() ==> r is Ok,
            final(self).is_bound() == old(self).is_bound(),
            final(self).name_view() == old(self).name_view(),
            match r {
                Ok(_) => final(self).value_view() == value@ && (old(self).is_bound()
                    ==> final(self).store_map() == old(self).store_map().insert(
                    old(self).name_view(),
                    T::encoding_of(value@),
                )),
                Err(e) => e is Engine && final(self).value_view() == old(self).value_view(),
            },
    {
        let bytes = value.encode();
        match &mut self.hive_mind {
            Some(m) => match m.set_bytes(self.name.as_slice(), bytes.as_slice()) {
                Ok(_) => {
                    self.value = value;
                    Ok(())
                },
                Err(e) => Err(e),
            },
            None => {
                self.value = value;
                Ok(())
            },
        }
    }

    /// The current in-memory value; shared readers never block.
    pub fn read(&self) -> (r: &T)
        ensures
            r@ == self.value_view(),
    {
        &self.value
    }
}

impl<T: HiveBoxable + HiveNamed> SelfHiveBoxed<T> {
    /// [`Self::get`] under the type's own fixed name.
    pub fn get_named(hive_mind: HiveMind) -> (r: Result<Self, HiveError>)
        ensures
            match r {
                Ok(s) => s.is_bound() && s.name_view() == T::hive_name_spec() && s.store_map()
                    == hive_mind@ && prior_usable::<T>(hive_mind@, T::hive_name_spec())
                    && s.value_view() == decode_of::<T>(hive_mind@[T::hive_name_spec()]).unwrap(),
                Err(HiveError::NotFound) => !hive_mind@.contains_key(T::hive_name_spec()),
                Err(HiveError::Codec) => hive_mind@.contains_key(T::hive_name_spec())
                    && decode_of::<T>(hive_mind@[T::hive_name_spec()]) is None,
                Err(HiveError::Engine(_)) => true,
            },
    {
        let name = T::hive_name();
        Self::get(hive_mind, name)
    }

    /// Persists `value` under the type's own fixed name and builds a
    /// cell bound to it.
    pub fn set_named(hive_mind: HiveMind, value: T) -> (r: Result<Self, HiveError>)
        ensures
            T::wf_view(value@),
            match r {
                Ok(s) => s.is_bound() && s.name_view() == T::hive_name_spec() && s.value_view()
                    == value@ && s.store_map() == hive_mind@.insert(
                    T::hive_name_spec(),
                    T::encoding_of(value@),
                ),
                Err(e) => e is Engine,
            },
    {
        let name = T::hive_name();
        let mut m = hive_mind;
        match m.set::<T>(name.as_slice(), &value) {
            Ok(_) => Ok(SelfHiveBoxed { hive_mind: Some(m), name, value }),
            Err(e) => Err(e),
        }
    }
}

} // verus!
