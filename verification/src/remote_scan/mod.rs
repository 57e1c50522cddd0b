//! Remote libraries: scanning them and fetching the covers of their books.

pub mod failure;
pub mod fetch;
pub mod job;
pub mod model;
pub mod progress;
pub mod sink;
pub mod worker;
