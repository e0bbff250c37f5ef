//! An in-memory relational store: typed tables, foreign-key references between
//! them, optimistic versioning of rows, cascading deletes and typed queries.

pub mod value;
pub mod schema;
pub mod request;
pub mod query;
pub mod database;
pub mod session;
pub mod theorems;
