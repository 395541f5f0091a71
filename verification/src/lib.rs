//! Lineage graphs over an ML metadata store.
//!
//! A store records artifacts, executions, and the events that link an
//! artifact to an execution. From an origin, a search finds the nodes and
//! edges that are related to it ([`traversal`], [`snapshot`]); the types of
//! the nodes get a colour each ([`legend`]); and the whole is written as a
//! document of the DOT language ([`render`]).
//!
//! The store itself is not reached from here. A caller asks
//! [`traversal::Traversal`] which node it needs next, fetches the record
//! and the events of that node, and hands them in. [`snapshot::Snapshot`]
//! is a store held in memory that answers at once.
//!
//! Two things are taken on trust. [`json`] hands strings to serde_json,
//! and [`template`] hands URL templates to tinytemplate; what the two
//! crates answer is named, and not described, in the contracts of this
//! crate. [`text`] states what `String::push` of std does.
pub mod artifacts;
pub mod contexts;
pub mod derived;
pub mod error;
pub mod events;
pub mod executions;
pub mod graph;
pub mod io;
pub mod json;
pub mod legend;
pub mod metadata;
pub mod render;
pub mod snapshot;
pub mod template;
pub mod text;
pub mod traversal;
