//! Persistence core of a local feed reader: the versioned schema catalog,
//! the migration registry and runner, and the relational model of feeds,
//! articles and metadata that the schema establishes.

pub mod error;
pub mod model;
pub mod registry;
pub mod runner;
pub mod schema;
pub mod store;
