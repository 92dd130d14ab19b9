//! Routing engine for a protobuf code-generation plugin.
//!
//! The crate decodes a serialized descriptor set, resolves each file's
//! package to a hierarchical module identifier, parses `key=value`
//! configuration flags, and decides for every generated module which
//! output file receives its text and how the text is wrapped in nested
//! module declarations. All file I/O and the code generator itself live
//! outside this crate; the functions here compute a complete output plan
//! from plain values.

pub mod error;
pub mod flags;
pub mod laws;
pub mod reflect;
pub mod resolve;
pub mod route;
pub mod wrap;
