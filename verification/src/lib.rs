//! Typed shapes for GraphQL operations.
//!
//! Given a schema's type graph and an operation resolved against it, this
//! library determines every type the operation touches and derives the typed
//! definitions (aliases, records, sum types) that its variables and its
//! response must have. Rendering those definitions as source text is left to
//! the caller.
//!
//! Every data type has a mathematical value, its view, and every contract
//! is stated over views.

pub mod codegen;
pub mod coverage;
pub mod definitions;
pub mod enums;
pub mod error;
pub mod field_type;
pub mod laws;
pub mod naming;
pub mod options;
pub mod query;
pub mod schema;
pub mod selection;
pub mod sequences;
pub mod used_types;
