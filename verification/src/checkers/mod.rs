//! Output checkers.

pub mod exact;
pub mod laws;
pub mod lines;
pub mod none;
pub mod resolve;
pub mod stage;
pub mod stage_laws;
pub mod streaming;
pub mod testlib;
pub mod tokens;
pub mod tokens_case;
pub mod tokens_float;
pub mod types;
pub mod unordered;
pub mod unordered_lines;
pub mod unordered_tokens;
pub mod util;
