//! A content-addressed package store: store paths and their digests, the
//! archive codec, the derivation grammar, path metadata and signatures,
//! the daemon wire protocol, and the build planner.

pub mod ast;
pub mod base32;
pub mod binary;
pub mod config;
pub mod crypto;
pub mod derivation;
pub mod error;
pub mod hash;
pub mod nar;
pub mod path;
pub mod store;
pub mod strutil;
pub mod token;
pub mod valid_path;
pub mod wire;
pub mod worker;

pub use error::StoreError;
