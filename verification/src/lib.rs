//! A static, file-based package registry engine.
//!
//! The library is the pure core: crate-name validation and directory
//! sharding, package-archive inspection, manifest adaptation into index
//! records, the line-oriented index file format, and the add / yank /
//! unyank / remove / list operations that keep index records and stored
//! archives consistent.  Callers (a command-line front end, a test
//! driver) perform the actual file reads and writes; every function
//! here maps plain values to plain values and carries a contract.

pub mod name;
pub mod strs;
pub mod index_entry;
pub mod codec;
pub mod parse;
pub mod store;
pub mod checksum;
pub mod urls;
pub mod toml_tree;
pub mod archive;
pub mod cargo_toml;
pub mod config;
pub mod config_json;
pub mod registry;
pub mod roundtrip;
