//! A path sandbox: it confines file access to a fixed set of root
//! directories, and decides each file operation before the operating system
//! is asked to perform it.
//!
//! Beside it stand the configuration check, the error kinds and the request
//! and response types of the spreadsheet and document service that the same
//! server offers.

pub mod paths;
pub mod validation;
pub mod lines;
pub mod tools;
pub mod protocol;
pub mod auth_manager;
pub mod config;
pub mod error;
pub mod models;
