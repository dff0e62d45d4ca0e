//! A small task-tracking library: validated task records, a patch-based edit
//! mechanism, an in-memory repository, a query/filter/sort engine, partial
//! identifier resolution, and a versioned on-disk document codec.

pub mod db_schema;
pub mod errors;
pub mod id;
pub mod instant;
pub mod query;
pub mod repo;
pub mod resolver;
pub mod seed;
pub mod store;
pub mod tags;
pub mod text;
pub mod todo;
pub mod values;
