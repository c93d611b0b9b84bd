//! The print queue: jobs, stations and the rules between them.

pub mod auth;
pub mod config;
pub mod handlers;
pub mod job_laws;
pub mod jobs;
pub mod laws;
pub mod models;
pub mod routes;
pub mod schema;
pub mod stations;
pub mod status;
