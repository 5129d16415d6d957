//! A small SQL-like front end: a tokenizer for query text and an in-memory
//! table with typed columns.

pub mod text;
pub mod decimal;
pub mod query;
pub mod document;
