//! Normalization of file-based declarative catalogs: splitting concatenated
//! JSON object blobs, repairing a known class of malformed `"value":`
//! encodings, decoding the results into typed catalog records, re-encoding
//! them canonically, and indexing records by identity.

pub mod decode;
pub mod encode;
pub mod format;
pub mod index;
pub mod laws;
pub mod model;
pub mod node;
pub mod normalize;
pub mod repair;
pub mod splitter;
pub mod text;
