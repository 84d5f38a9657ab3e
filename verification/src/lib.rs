//! Registry of local project directories, discovery of their `.env*` files,
//! and activation of a chosen env file as the effective `.env`.
//!
//! The store, the scanner and the activator are verified over plain values:
//! the surrounding process hands in directory listings, file contents and
//! clock readings, and carries the results back to disk.

pub mod activate;
pub mod commands;
pub mod scan;
pub mod store;
pub mod strutil;
pub mod types;
