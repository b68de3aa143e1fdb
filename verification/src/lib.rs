//! Storage, query and configuration core of the Skytable database server.

pub mod error;
pub mod checksum;
pub mod scanner;
pub mod text;
pub mod data;
pub mod persist;
pub mod field;
pub mod map;
pub mod fs;
pub mod rw;
pub mod ql;
pub mod select;
pub mod config;
pub mod actions;
pub mod harness;
