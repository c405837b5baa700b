//! Typed log records: a registry of log types, the resolution of a record's
//! properties against its type, and a store of records and their properties.
pub mod api;
pub mod conform;
pub mod error;
pub mod schema;
pub mod store;
pub mod strmap;
