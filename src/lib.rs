//! Recursive decomposition of document and archive files into a flat,
//! lineage-tracked list of leaves, text extraction for each leaf, and
//! reconciliation of the leaves against the records of an earlier scan.
//!
//! - `classify`: the format tag of a file, from its extension and leading bytes.
//! - `engine`: the walk over nested containers, kept as a stack of files to visit.
//! - `msg`: the walker of messages stored as compound files.
//! - `containers`: what mail messages, word-processor containers and workbooks expand into.
//! - `pdf`: what is read from the output of the PDF utilities.
//! - `documents` and `docxml`: text of word-processor documents.
//! - `encoding` and `text`: decoding and clean-up of plain-text leaves.
//! - `reconcile`: fingerprints, skipping of unchanged leaves, output records.

pub mod classify;
pub mod containers;
pub mod documents;
pub mod docxml;
pub mod encoding;
pub mod engine;
pub mod msg;
pub mod pdf;
pub mod reconcile;
pub mod text;
