//! Data model, caching rules and background-work decisions of a comic reader.

pub mod api;
pub mod cache;
pub mod catalog_context;
pub mod digest;
pub mod json;
pub mod migration;
pub mod number;
pub mod order;
pub mod remote_scan;
pub mod session;
pub mod text;
pub mod tree;
