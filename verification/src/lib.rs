//! A todo-list core: the record model, the in-memory store with its CRUD
//! operations, and the JSON persistence codec for the backing file.
//!
//! The store owns an ordered collection of records with pairwise distinct
//! identifiers; every mutation keeps that invariant and insertion order.
//! The codec turns the collection into the persisted JSON array of objects
//! and back, and the round trip is proved exact.

pub mod codec;
pub mod store;
pub mod todo;

