//! IOI contests: subtasks, partial scores, tokens and feedback.

pub mod board_laws;
pub mod config;
pub mod evaluate;
pub mod feedback;
pub mod judge;
pub mod laws;
pub mod persist;
pub mod read_laws;
pub mod score;
pub mod scoreboard;
pub mod scoring;
pub mod short_circuit;
pub mod subtasks;
pub mod tokens;
