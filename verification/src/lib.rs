//! Core of a compile-and-execute service: content-addressed artifact
//! identifiers, a compile cache that hands out at most one launch per
//! artifact, workspace staging plans, per-invocation scratch file names,
//! resource-report parsing, and assembly of the wire response.
//!
//! Everything here is pure decision logic; the surrounding binary performs
//! the filesystem, process and network work and feeds the results back in.

pub mod cache;
pub mod ident;
pub mod registry;
pub mod report;
pub mod response;
pub mod scratch;
pub mod text;
pub mod workspace;
