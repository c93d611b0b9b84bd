//! Contest-plugin logic: checkers, scoring, standings, printing and language
//! resolution, stated as contracts and proved.

pub mod checkers;
pub mod client;
pub mod http;
pub mod icpc;
pub mod ids;
pub mod ioi;
pub mod judging;
pub mod judging_laws;
pub mod languages;
pub mod letters;
pub mod limit;
pub mod pairs;
pub mod print;
pub mod sql;
pub mod statement;
pub mod summary;
pub mod text;
pub mod textmap;
pub mod utf8;
pub mod verdict;
pub mod visibility;
