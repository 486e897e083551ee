//! A schema-directed configuration binding engine.
//!
//! Callers describe a nested, strongly typed configuration record as a
//! [`field_type::Schema`].  The engine walks that schema and performs two
//! symmetric operations over a flat, dot-keyed string map
//! ([`flat::FlatConfig`]):
//!
//! * `apply` pulls raw string values out of the map, parses or decodes them,
//!   and writes them into a record instance, and
//! * `collect_keys` enumerates, in declaration order, every dotted key the
//!   schema expects the map to hold.
//!
//! The two operations share one prefixing rule, so they always speak about
//! the same key namespace.

pub mod apply;
pub mod engine;
pub mod keys;
pub mod field_type;
pub mod flat;
pub mod json;
pub mod scalar;
pub mod value;
