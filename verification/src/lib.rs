//! Query resolution for a desktop launcher: the catalog of installed
//! applications, the store of resolvable entries, and the pipeline that turns
//! a typed query into an ordered list of actionable results.

pub mod application;
pub mod calculator;
pub mod catalog;
pub mod config;
pub mod database;
pub mod entry;
pub mod metadata;
pub mod parser;
pub mod queryable;
pub mod schema;
pub mod text;
