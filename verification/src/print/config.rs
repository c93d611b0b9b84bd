//! Settings of printing, of a contest or of the whole site.

use vstd::prelude::*;

verus! {

pub const NAMESPACE: &'static str = "print";

#[derive(Debug, Clone, PartialEq, Eq)]
pub struct PrintConfig {
    pub enabled: bool,
    pub require_approval: bool,
    pub max_pages: i32,
    pub banner: String,
    pub station_tokens: Vec<String>,
}

impl Default for PrintConfig {
    fn default() -> (r: Self)
        ensures
            r.enabled,
            !r.require_approval,
            r.max_pages == 10,
            r.banner@.len() == 0,
            r.station_tokens@.len() == 0,
    {
        PrintConfig {
            enabled: true,
            require_approval: false,
            max_pages: 10,
            banner: String::new(),
            station_tokens: Vec::new(),
        }
    }
}

} // verus!
