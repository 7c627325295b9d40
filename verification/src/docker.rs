//! The daemon's side: what it says, and how it is found.
pub mod client;
pub mod types;
