//! A multi-language source-code index with verified queries.
//!
//! Source files are parsed into syntax trees, from which per-language rules
//! extract symbols: types, functions, methods and calls. The symbols of a
//! repository form an index that is kept up to date by modification time,
//! saved as bytes and read back, and queried for symbols, call graphs and
//! class hierarchies. Independent of the index, rules with textual patterns
//! or structural queries are evaluated over single files.

pub mod ancestry;
pub mod api;
pub mod cache;
pub mod codec;
pub mod consistency;
pub mod engine;
pub mod error;
pub mod extract;
pub mod hierarchy;
pub mod hits;
pub mod java;
pub mod javascript;
pub mod manager;
pub mod mcp;
pub mod parser;
pub mod pattern;
pub mod persist;
pub mod python;
pub mod query;
pub mod reach;
pub mod regex_scanner;
pub mod report;
pub mod rule_scanner;
pub mod rules;
pub mod rustlang;
pub mod scanner;
pub mod security;
pub mod stats;
pub mod strmap;
pub mod symbol;
pub mod syntax;
pub mod text;
pub mod treesitter;
