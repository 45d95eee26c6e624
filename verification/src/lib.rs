pub mod codec;
pub mod config;
pub mod errors;
pub mod hashing;
pub mod repo;
pub mod store;
pub mod zlib;
