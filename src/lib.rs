//! Core of a streaming SQL engine: the table catalog, the shared-subexpression
//! plan graph with its schema analysis, the column resolver, the plan compiler
//! and the registry of live streams.

pub mod catalog;
pub mod planner;
pub mod stream;
pub mod db;
pub mod executor;
