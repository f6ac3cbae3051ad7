//! Deterministic state-transition handlers over an in-memory key-value store.
//!
//! Two registries share the store: a per-account scalar registry
//! (`set` / `get` / `take` / `increase`, with explicit existence checks that
//! are distinct from the store's implicit zero default) and a channel-keyed
//! secret-distribution registry (`new_channel`). Every handler validates its
//! input before touching the store, mutates all-or-nothing, and appends one
//! record to an append-only event log exactly when it succeeds.

pub mod assoc;
pub mod events;
pub mod laws;
pub mod membership;
pub mod pallet;
pub mod store;
pub mod types;
