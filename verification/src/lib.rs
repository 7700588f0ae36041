//! Verified page layout, tuple codecs and maintenance arithmetic for the `theodb_hnsw` /
//! `theodb_ivfflat` index access methods.
//!
//! Everything here is pure: byte images in, byte images (or typed errors) out. The buffer manager,
//! WAL and GUC plumbing live in the extension glue that calls this library.
pub mod bytes;
pub mod codec;
pub mod columns;
pub mod fold;
pub mod graph;
pub mod groups;
pub mod guc;
pub mod ivf;
pub mod labels;
pub mod layout;
pub mod meta;
pub mod options;
pub mod pack;
pub mod persisted;
pub mod pushdown;
pub mod page;
pub mod store;
pub mod text;
pub mod traverse;
pub mod walk;
