//! Persistence core of a gradebook application.
//!
//! The library defines the persisted data model (settings, subjects,
//! students, grade records), a JSON codec with per-field defaulting for
//! partial documents, and the pure decision logic of the storage layer
//! (path choice, load behaviour). All functions are verified; file and
//! process I/O live outside the library.

use vstd::prelude::*;

pub mod api;
pub mod codec;
pub mod decode;
pub mod encode;
pub mod inverse;
pub mod json;
pub mod model;
pub mod parse;
pub mod ser;
pub mod store;

verus! {

pub use model::Database;

} // verus!
