//! Backend-agnostic key-value storage: capability traits, in-memory backends and
//! a binary codec adapter over byte-keyed stores.

/// The store contract shared by every backend.
pub mod kvstore;

/// The in-memory reference backend of the store contract.
pub mod inmemory;

/// The binary codec used by the adapter: its wire format and the calls into bincode.
pub mod codec;

/// Restricts the codec to the value types whose format this crate states.
mod sealed;

/// A typed store over any byte-keyed, byte-valued store.
pub mod binary;

/// Store traits without an error channel, with an in-memory implementation.
pub mod boxed;

/// Store traits for shared keys and values, with an in-memory implementation.
pub mod kv_store;

/// An in-memory store with reads, writes and removals.
pub mod hashmap_store;

/// The view trait that the store traits' key types carry.
pub use vstd::view::View;
