//! An edge-resident API gateway exposing a typed query interface over an
//! upstream REST API.
//!
//! The crate is the query-resolution engine: it parses a query document,
//! plans one upstream call per requested top-level field (each with its
//! cache directive), decodes the upstream JSON records, isolates per-field
//! failures, projects the requested sub-attributes, and serializes the
//! combined response.  The edge transport and the actual HTTP calls live
//! outside the engine and hand it plain bytes.

pub mod codec;
pub mod json;
pub mod entities;
pub mod records;
pub mod cache;
pub mod resolvers;
pub mod query;
pub mod executor;
