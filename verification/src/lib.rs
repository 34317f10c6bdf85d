//! Verified core of a one-way directory/S3 synchronisation tool.
//!
//! The library decides; the program around it performs the I/O.
pub mod text;
pub mod error;
pub mod paths;
pub mod filter;
pub mod s3path;
pub mod plan;
pub mod laws;
pub mod listing;
pub mod instance;
pub mod config;
pub mod cycle;

pub use config::Config;
pub use s3path::{is_s3_path, parse_s3_path};
