//! ICPC contests: all-or-nothing judging, penalties, standings and the freeze.

pub mod board;
pub mod board_laws;
pub mod config;
pub mod evaluate;
pub mod laws;
pub mod persist;
pub mod read_laws;
pub mod routes;
pub mod standings;
pub mod visibility;
