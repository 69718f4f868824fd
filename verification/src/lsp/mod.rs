//! The language server's data.
pub mod base;
pub mod convert;
pub mod queries;
