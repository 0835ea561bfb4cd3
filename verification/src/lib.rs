//! A read-only query layer over a snapshot of archetype-based entity and
//! component storage: which components exist, which archetypes have a
//! component, which entities belong to an archetype, and the reverse maps.
//!
//! A [`snapshot::Snapshot`] is built once from the records of the storage and
//! then only read. Every query is a function of the snapshot and its
//! arguments, and what it has to say about a missing, an ambiguous or an empty
//! result is part of its answer.

pub mod archetypes;
pub mod catalog;
pub mod command;
pub mod engine;
pub mod entities;
pub mod keys;
pub mod laws;
pub mod membership;
pub mod model;
pub mod outcome;
pub mod report;
pub mod snapshot;
pub mod text;
