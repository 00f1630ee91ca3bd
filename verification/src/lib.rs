//! A verified model of a cross-language memory-ownership and marshalling
//! protocol at a native/managed foreign-call boundary.
//!
//! Text crosses the boundary as null-terminated byte sequences, composite
//! values as fixed byte-exact struct layouts, and owned allocations are
//! tracked by an explicit registry so that the release discipline
//! (transfer-to-caller, borrow-for-call, borrow-from-caller) can be stated
//! and checked rather than left to convention.

pub mod callback;
pub mod codec;
pub mod error;
pub mod greetings;
pub mod layout;
pub mod messages;
pub mod parallel;
pub mod registry;
