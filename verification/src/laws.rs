//! What the library as a whole promises.

pub mod operations;
pub mod runs;
pub mod screens;
pub mod sessions;
pub mod setups;
pub mod summaries;
pub mod texts;
pub mod threads;
