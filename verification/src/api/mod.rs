//! What clients of the library call.

pub mod book;
pub mod cache;
pub mod db;
pub mod eh_subscription;
pub mod export;
pub mod library;
pub mod opening;
pub mod package;
pub mod remote_cover;
pub mod scraper;
pub mod source;
pub mod sync;
