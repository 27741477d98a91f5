//! A pooled, concurrent bulk data-transfer pipeline.
//!
//! The library partitions a large relational dataset into disjoint
//! `(offset, limit)` pages, merges the per-page extraction results under a
//! continue-on-error policy, and loads record batches into a target store
//! through one of two streaming bulk-load strategies: a file-staged copy
//! (records serialized into a row-oriented exchange format and streamed in
//! fixed-size chunks) or a row-streaming bulk channel.
//!
//! All decisions and data transformations live here and are verified; the
//! asynchronous database drivers that carry them out are external
//! collaborators and feed plain values in and out.

pub mod accumulator;
pub mod codec;
pub mod decimal;
pub mod environment;
pub mod errors;
pub mod extract;
pub mod gateway;
pub mod loader;
pub mod partition;
pub mod record;
