//! What a station asks of a server, and how it reads the answers.

use vstd::prelude::*;

use crate::client::config::ServerCfg;
use crate::judging::copy_opt_text;
use crate::text::{
    chars_of, concat, concat3, copy_list, decimal, decimal_i64, string_of_range,
};
use crate::text;
use crate::print::auth;

verus! {

pub const BASE_PATH: &'static str = "/api/v1/p/print/api/plugins/print";

/// A job to print. `created_at` counts whole seconds since the epoch.
#[derive(Debug, Clone, PartialEq, Eq)]
pub struct Job {
    pub id: i64,
    pub contest_id: Option<i64>,
    pub username: String,
    pub display_name: Option<String>,
    pub problem_label: Option<String>,
    pub language: String,
    pub filename: String,
    pub source: String,
    pub location: Option<String>,
    pub target_printer: Option<String>,
    pub created_at: Option<i64>,
}

#[derive(Debug, Clone, Copy, PartialEq, Eq, Structural)]
pub enum ClaimOutcome {
    Claimed,
    Taken,
}

/// A text without the slashes at its end.
pub open spec fn without_slashes(s: Seq<char>) -> Seq<char>
    decreases s.len(),
{
    if s.len() > 0 && s.last() == '/' {
        without_slashes(s.drop_last())
    } else {
        s
    }
}

pub fn trim_slashes(s: &str) -> (r: String)
    ensures
        r@ == without_slashes(s@),
{
    let chars = chars_of(s);
    let mut n: usize = chars.len();
    assert(s@.take(n as int) =~= s@);
    while n > 0 && chars[n - 1] == '/'
        invariant
            n <= chars@.len(),
            chars@ == s@,
            without_slashes(s@.take(n as int)) == without_slashes(s@),
        decreases n,
    {
        assert(s@.take(n as int).drop_last() =~= s@.take(n - 1));
        n -= 1;
    }
    proof {
        assert(s@.subrange(0, n as int) =~= s@.take(n as int));
    }
    string_of_range(&chars, 0, n)
}

/// A server as a station reaches it.
#[derive(Debug, Clone, PartialEq, Eq)]
pub struct ServerClient {
    pub base: String,
    pub auth: String,
    pub label: String,
}

/// A sign of life.
#[derive(Debug, Clone, PartialEq, Eq)]
pub struct Heartbeat {
    pub url: String,
    pub station: String,
    pub printers: Vec<String>,
    pub location: Option<String>,
    pub queue_seen: i64,
}

/// A request for jobs, with the parameters of its query.
#[derive(Debug, Clone, PartialEq, Eq)]
pub struct JobsRequest {
    pub url: String,
    pub limit: String,
    pub location: Option<String>,
}

/// A request to take a job.
#[derive(Debug, Clone, PartialEq, Eq)]
pub struct ClaimRequest {
    pub url: String,
    pub station: String,
    pub printer: String,
}

/// A report on a job.
#[derive(Debug, Clone, PartialEq, Eq)]
pub struct Report {
    pub status: String,
    pub pages: Option<u32>,
    pub error: Option<String>,
}

impl ServerClient {
    pub fn new(server: &ServerCfg) -> (r: Self)
        ensures
            r.base@ == without_slashes(server.url@) + BASE_PATH@,
            r.auth@ == "PrintStation "@ + server.token@,
            r.label@ == server.url@,
    {
        let root = trim_slashes(server.url.as_str());
        ServerClient {
            base: concat(root.as_str(), BASE_PATH),
            auth: concat("PrintStation ", server.token.as_str()),
            label: server.url.as_str().to_owned(),
        }
    }

    pub fn url(&self, path: &str) -> (r: String)
        ensures
            r@ == self.base@ + path@,
    {
        concat(self.base.as_str(), path)
    }

    pub fn heartbeat(
        &self,
        station: &str,
        printers: &Vec<String>,
        location: &Option<String>,
        queue_seen: i64,
    ) -> (r: Heartbeat)
        ensures
            r.url@ == self.base@ + "/stations/heartbeat"@,
            r.station@ == station@,
            text::views(r.printers@) == text::views(printers@),
            text::opt_view(r.location) == text::opt_view(*location),
            r.queue_seen == queue_seen,
    {
        Heartbeat {
            url: self.url("/stations/heartbeat"),
            station: station.to_owned(),
            printers: copy_list(printers),
            location: copy_opt_text(location),
            queue_seen,
        }
    }

    pub fn fetch_jobs(&self, location: &Option<String>, limit: u128) -> (r: JobsRequest)
        requires
            limit <= u64::MAX,
        ensures
            r.url@ == self.base@ + "/stations/jobs"@,
            r.limit@ == text::decimal_digits(limit as nat),
            text::opt_view(r.location) == text::opt_view(*location),
    {
        JobsRequest {
            url: self.url("/stations/jobs"),
            limit: decimal(limit as u64),
            location: copy_opt_text(location),
        }
    }

    pub fn claim(&self, id: i64, station: &str, printer: &str) -> (r: ClaimRequest)
        ensures
            r.url@ == self.base@ + ("/stations/jobs/"@ + text::decimal_int(id as int) + "/claim"@),
            r.station@ == station@,
            r.printer@ == printer@,
    {
        let number = decimal_i64(id);
        let path = concat3("/stations/jobs/", number.as_str(), "/claim");
        ClaimRequest {
            url: self.url(path.as_str()),
            station: station.to_owned(),
            printer: printer.to_owned(),
        }
    }

    /// Where a report on a job goes.
    pub fn report(&self, id: i64) -> (r: String)
        ensures
            r@ == self.base@ + ("/stations/jobs/"@ + text::decimal_int(id as int) + "/status"@),
    {
        let number = decimal_i64(id);
        let path = concat3("/stations/jobs/", number.as_str(), "/status");
        self.url(path.as_str())
    }
}

/// How a request fared: it went through, the server refused it (with the message
/// that its answer holds), or no answer came.
#[derive(Debug, Clone, PartialEq, Eq)]
pub enum Reply {
    Done,
    Refused { code: u16, message: Option<String> },
    Unreached { detail: String },
}

/// What is said of a reply that is no success.
pub open spec fn problem_of(reply: Reply) -> Seq<char> {
    match reply {
        Reply::Done => ""@,
        Reply::Refused { code, message } => {
            let number = text::decimal_digits(code as nat);
            "server returned "@ + number + ": "@ + match message {
                Some(m) => m@,
                None => "HTTP "@ + number,
            }
        },
        Reply::Unreached { detail } => "connection failed: "@ + detail@,
    }
}

/// What is said of a reply that is no success.
pub fn status_error(reply: &Reply) -> (r: String)
    ensures
        r@ == problem_of(*reply),
{
    match reply {
        Reply::Done => "".to_owned(),
        Reply::Refused { code, message } => {
            let number = decimal(*code as u64);
            let start = concat3("server returned ", number.as_str(), ": ");
            match message {
                Some(m) => concat(start.as_str(), m.as_str()),
                None => {
                    let plain = concat("HTTP ", number.as_str());
                    concat(start.as_str(), plain.as_str())
                },
            }
        },
        Reply::Unreached { detail } => concat("connection failed: ", detail.as_str()),
    }
}

/// Reads the reply to a claim. A conflict means that another station took the
/// job.
pub fn read_claim(reply: &Reply) -> (r: Result<ClaimOutcome, String>)
    ensures
        match *reply {
            Reply::Done => r == Ok::<ClaimOutcome, String>(ClaimOutcome::Claimed),
            Reply::Refused { code, .. } => if code == 409 {
                r == Ok::<ClaimOutcome, String>(ClaimOutcome::Taken)
            } else {
                r matches Err(e) && e@ == problem_of(*reply)
            },
            Reply::Unreached { .. } => r matches Err(e) && e@ == problem_of(*reply),
        },
{
    match reply {
        Reply::Done => Ok(ClaimOutcome::Claimed),
        Reply::Refused { code, .. } => if *code == 409 {
            Ok(ClaimOutcome::Taken)
        } else {
            Err(status_error(reply))
        },
        Reply::Unreached { .. } => Err(status_error(reply)),
    }
}

/// Reads the reply to a request that returns nothing.
pub fn read_done(reply: &Reply) -> (r: Result<(), String>)
    ensures
        match r {
            Ok(_) => *reply is Done,
            Err(e) => !(*reply is Done) && e@ == problem_of(*reply),
        },
{
    match reply {
        Reply::Done => Ok(()),
        _ => Err(status_error(reply)),
    }
}

// ---------------------------------------------------------------------------
// Laws
// ---------------------------------------------------------------------------

/// The slashes at the end of a server's address make no difference.
pub proof fn trailing_slashes_do_not_matter(url: Seq<char>)
    ensures
        without_slashes(url.push('/')) == without_slashes(url),
{
    assert(url.push('/').drop_last() =~= url);
}

/// A server reads back the token that a station shows, unless the token is blank
/// or white characters stand around it.
pub proof fn servers_read_the_token(token: Seq<char>)
    requires
        token.len() > 0,
        !text::is_white(token[0]),
        !text::is_white(token.last()),
    ensures
        auth::token_of(Some("PrintStation "@ + token)) == Some(token),
{
    let header = "PrintStation "@ + token;
    let n = "PrintStation "@.len() as int;
    assert(header.subrange(0, n) =~= "PrintStation "@);
    assert(text::has_prefix(header, "PrintStation "@));
    assert(header.skip(n) =~= token);
    assert(text::trim_start_spec(token) == token);
    assert(text::trim_end_spec(token) == token);
}

} // verus!
