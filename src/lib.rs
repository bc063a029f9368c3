//! A port-knocking sentinel: a per-source knock state machine, a generational
//! record store, an index of active knocks by address and a lazily swept
//! expiration queue, kept consistent with each other.

pub mod address;
pub mod knock_state;
pub mod store;
pub mod expire;
pub mod engine;
pub mod knock_meta;
pub mod clock;
pub mod scheduler;
