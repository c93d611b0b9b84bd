//! A station's configuration. One station drives many printers across many
//! servers.

use vstd::prelude::*;

verus! {

/// A server to poll, and the token to show it.
#[derive(Debug, Clone, PartialEq, Eq)]
pub struct ServerCfg {
    pub url: String,
    pub token: String,
}

/// A printer of the station.
#[derive(Debug, Clone, PartialEq, Eq)]
pub struct PrinterCfg {
    /// Matched against the printer that a job asks for.
    pub name: String,
    /// The name of the system's queue; none means the system's default.
    pub os_id: Option<String>,
    /// `lp -d {printer} {file}`, or `folder:/path` to write a PDF instead.
    pub command: Option<String>,
}

/// The configuration of a station, with font sizes in `F`.
#[derive(Debug, Clone, PartialEq, Eq)]
pub struct Config<F> {
    pub station: String,
    pub location: Option<String>,
    pub poll_interval_secs: u64,
    pub max_pages: u32,
    pub paper: String,
    pub font_size: F,
    pub banner: String,
    pub servers: Vec<ServerCfg>,
    pub printers: Vec<PrinterCfg>,
}

pub const DEFAULT_POLL_SECS: u64 = 3;

pub const DEFAULT_MAX_PAGES: u32 = 10;

/// The default paper.
pub fn default_paper() -> (r: String)
    ensures
        r@ == "A4"@,
{
    "A4".to_owned()
}

/// The configuration that a station starts from.
pub fn default_config<F>(font_size: F) -> (r: Config<F>)
    ensures
        r.station@ == "station-1"@,
        r.location is None,
        r.poll_interval_secs == 3,
        r.max_pages == 10,
        r.paper@ == "A4"@,
        r.font_size == font_size,
        r.banner@.len() == 0,
        r.servers@.len() == 0,
        r.printers@.len() == 0,
{
    Config {
        station: "station-1".to_owned(),
        location: None,
        poll_interval_secs: DEFAULT_POLL_SECS,
        max_pages: DEFAULT_MAX_PAGES,
        paper: default_paper(),
        font_size,
        banner: String::new(),
        servers: Vec::new(),
        printers: Vec::new(),
    }
}

impl<F> Config<F> {
    /// The names of the printers, in order.
    pub fn printer_names(&self) -> (r: Vec<String>)
        ensures
            r@.len() == self.printers@.len(),
            forall|i: int| 0 <= i < r@.len() ==> (#[trigger] r@[i])@ == self.printers@[i].name@,
    {
        let mut out: Vec<String> = Vec::new();
        let mut i: usize = 0;
        while i < self.printers.len()
            invariant
                i <= self.printers@.len(),
                out@.len() == i,
                forall|k: int| 0 <= k < i ==> (#[trigger] out@[k])@ == self.printers@[k].name@,
            decreases self.printers@.len() - i,
        {
            out.push(self.printers[i].name.as_str().to_owned());
            i += 1;
        }
        out
    }
}

} // verus!
