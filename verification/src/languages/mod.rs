//! Compile and run commands of the standard languages.

pub mod laws;
pub mod path;
pub mod resolve;
