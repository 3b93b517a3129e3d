//! Semantic resolution of parsed query documents against a schema.
//!
//! Given a schema (the declared universe of types, their fields, and root
//! operation types) and a parsed but semantically untyped query document,
//! this library produces a validated intermediate representation in which
//! every name reference has been resolved to a stable schema identifier,
//! together with a view layer that re-hydrates the stored identifiers into
//! navigable selection trees, and a collector for the set of schema types
//! an operation touches.

pub mod document;
pub mod laws;
pub mod resolution;
pub mod schema;
pub mod view;
