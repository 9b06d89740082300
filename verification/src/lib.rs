pub mod adapter;
pub mod arith;
pub mod codec;
pub mod config;
pub mod cue;
pub mod error;
pub mod filesystem;
pub mod kv;
pub mod media;
pub mod metadata;
pub mod mount;
pub mod policy;
pub mod prelude;
pub mod scanner;
pub mod sled_backend;
pub mod tag;
pub mod text;
pub mod track;
