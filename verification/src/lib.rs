//! A typed persistence layer over an embedded, ordered byte-key store.
//!
//! Values are bound to byte keys through a verified binary codec
//! ([`codec::HiveBoxable`]), stored through a typed store
//! ([`store::HiveBox`]) or a name-keyed store ([`mind::HiveMind`]),
//! and exposed as in-memory cells reconciled with one persisted
//! record ([`self_boxed::SelfHiveBoxed`]).

pub mod bytes_le;
pub mod codec;
pub mod engine;
pub mod errors;
pub mod laws;
pub mod mind;
pub mod record;
pub mod self_boxed;
pub mod store;

pub use codec::HiveBoxable;
pub use errors::HiveError;
pub use mind::HiveMind;
pub use record::Hello;
pub use self_boxed::HiveNamed;
pub use self_boxed::SelfHiveBoxed;
pub use store::HiveBox;
