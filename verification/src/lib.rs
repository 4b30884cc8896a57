//! Core library for the North database engine.
//!
//! Every item is verified; file access, YAML parsing and the command line live
//! in the application around it.

pub mod catalog;
pub mod codec;
pub mod config;
pub mod heap;
pub mod message;
pub mod message_laws;
pub mod schema;
pub mod storage;
pub mod text;

pub use config::Config;
