//! Keeps two representations of a set of short notes consistent: a
//! filesystem-resident one (one directory bundle per note, with a companion
//! window/appearance descriptor) and a searchable relational one (a durable
//! store with a full-text shadow index).
//!
//! The crate holds the reconciliation engine that decides, per note, which
//! side is authoritative, together with the format adapters it depends on:
//! a bundle codec, a dual-schema metadata decoder, a markup-to-plain-text
//! extractor, and the store.

pub mod config;
pub mod database;
pub mod error;
pub mod filesystem;
pub mod hup;
pub mod rtf;
pub mod sync;
pub mod table;

pub use error::StickyError;
