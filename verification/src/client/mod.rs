//! The print station: what it fetches, how it lays out code, and how it prints.

pub mod api;
pub mod config;
pub mod doctor;
pub mod highlight;
pub mod laws;
pub mod layout;
pub mod pdf;
pub mod print;
pub mod run;
pub mod setup;
pub mod width;
