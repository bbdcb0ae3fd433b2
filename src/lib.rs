//! Partial records: a record type described by a schema of named fields gets
//! a field enumeration, a partial shadow record whose fields may each be
//! absent, a missing-fields error, and the operations that convert between
//! the record and its partial form and merge partial records.
pub mod names;
pub mod partial;
pub mod schema;
