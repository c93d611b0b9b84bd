//! Print stations show a token.

use vstd::prelude::*;

use crate::http::{HttpError, HttpRequest};
use crate::print::config::PrintConfig;
use crate::text::{chars_of, starts_with, string_of_range, trim};
use crate::http;
use crate::text;

verus! {

/// What a station may see: the jobs of one contest, or of all.
#[derive(Debug, Clone, Copy, PartialEq, Eq, Structural)]
pub struct StationAuth {
    pub contest_filter: Option<i32>,
}

/// The token in an authorization header.
pub open spec fn token_of(header: Option<Seq<char>>) -> Option<Seq<char>> {
    match header {
        Some(value) => if text::has_prefix(value, "PrintStation "@) {
            let token = text::trim_spec(value.skip("PrintStation "@.len() as int));
            if token.len() == 0 {
                None
            } else {
                Some(token)
            }
        } else {
            None
        },
        None => None,
    }
}

pub fn extract_token(req: &HttpRequest) -> (r: Option<String>)
    ensures
        crate::text::opt_view(r) == token_of(http::text_at(req.headers@, "authorization"@)),
{
    let value = match req.headers.get("authorization") {
        Some(v) => v,
        None => {
            return None;
        },
    };
    if !starts_with(value.as_str(), "PrintStation ") {
        return None;
    }
    let chars = chars_of(value.as_str());
    let scheme = chars_of("PrintStation ");
    let rest = string_of_range(&chars, scheme.len(), chars.len());
    assert(chars@.subrange(scheme@.len() as int, chars@.len() as int) =~= value@.skip(
        scheme@.len() as int,
    ));
    let token = trim(rest.as_str());
    if token.as_str().is_empty() {
        None
    } else {
        Some(token)
    }
}

/// Whether two byte strings are equal, in a time that depends on their lengths
/// alone.
pub fn constant_time_eq(a: &[u8], b: &[u8]) -> (r: bool)
    ensures
        r == (a@ == b@),
{
    if a.len() != b.len() {
        return false;
    }
    let mut diff: u8 = 0;
    let mut i: usize = 0;
    assert(a@.take(0) =~= b@.take(0));
    while i < a.len()
        invariant
            i <= a@.len() == b@.len(),
            diff == 0 <==> a@.take(i as int) == b@.take(i as int),
        decreases a@.len() - i,
    {
        let x: u8 = a[i];
        let y: u8 = b[i];
        let ghost before = diff;
        diff = diff | (x ^ y);
        proof {
            assert((before | (x ^ y)) == 0 <==> before == 0 && x == y) by (bit_vector);
            let p = a@.take(i as int);
            let q = b@.take(i as int);
            assert(a@.take(i as int + 1) =~= p.push(x));
            assert(b@.take(i as int + 1) =~= q.push(y));
            if p.push(x) == q.push(y) {
                assert(p =~= p.push(x).drop_last());
                assert(q =~= q.push(y).drop_last());
                assert(p.push(x).last() == q.push(y).last());
            }
        }
        i += 1;
    }
    assert(a@.take(i as int) =~= a@);
    assert(b@.take(i as int) =~= b@);
    diff == 0
}

/// Whether the list holds the token. Every entry is looked at.
pub fn token_in(token: &str, allowed: &Vec<String>) -> (r: bool)
    ensures
        r == text::views(allowed@).contains(token@),
{
    let mut found = false;
    let mut i: usize = 0;
    while i < allowed.len()
        invariant
            i <= allowed@.len(),
            found == text::views(allowed@).take(i as int).contains(token@),
        decreases allowed@.len() - i,
    {
        let entry = allowed[i].as_str();
        let same = constant_time_eq(entry.as_bytes(), token.as_bytes());
        let ghost before = found;
        if same {
            found = true;
        }
        proof {
            vstd::utf8::encode_utf8_decode_utf8(entry@);
            vstd::utf8::encode_utf8_decode_utf8(token@);
            assert(same == (entry@ == token@));
            let part = text::views(allowed@).take(i as int);
            let more = text::views(allowed@).take(i as int + 1);
            assert(text::views(allowed@)[i as int] == entry@);
            assert(more =~= part.push(entry@));
            if part.contains(token@) {
                let k = choose|k: int| 0 <= k < part.len() && part[k] == token@;
                assert(more[k] == token@);
            }
            if same {
                assert(more[i as int] == token@);
            }
            if more.contains(token@) && !same {
                let k = choose|k: int| 0 <= k < more.len() && more[k] == token@;
                assert(part[k] == token@);
            }
            assert(found == (before || same));
        }
        i += 1;
    }
    assert(text::views(allowed@).take(i as int) =~= text::views(allowed@));
    found
}

/// The contest that a request names.
pub fn named_contest(req: &HttpRequest) -> (r: Option<i32>)
    ensures
        r == (match http::int_at(req.query@, "contest_id"@, i32::MIN as int, i32::MAX as int) {
            Some(v) => Some(v as i32),
            None => None,
        }),
{
    req.query_i32("contest_id")
}

/// What the station may see. A token of the site opens everything, one of the
/// contest that the request names opens that contest.
pub open spec fn admits(
    token: Option<Seq<char>>,
    site: Seq<Seq<char>>,
    named: Option<i32>,
    contest: Seq<Seq<char>>,
    r: Result<StationAuth, HttpError>,
) -> bool {
    match token {
        None => r matches Err(e) && http::error_is(e, 401, "Missing print-station token"@),
        Some(t) => if site.contains(t) {
            r == Ok::<StationAuth, HttpError>(StationAuth { contest_filter: None })
        } else if named is Some && contest.contains(t) {
            r == Ok::<StationAuth, HttpError>(StationAuth { contest_filter: named })
        } else {
            r matches Err(e) && http::error_is(e, 403, "Invalid print-station token"@)
        },
    }
}

/// Admits a station. `contest` holds the settings of the contest that the
/// request names.
pub fn authenticate_station(
    req: &HttpRequest,
    global: &PrintConfig,
    contest: &PrintConfig,
) -> (r: Result<StationAuth, HttpError>)
    ensures
        admits(
            token_of(http::text_at(req.headers@, "authorization"@)),
            text::views(global.station_tokens@),
            match http::int_at(req.query@, "contest_id"@, i32::MIN as int, i32::MAX as int) {
                Some(v) => Some(v as i32),
                None => None,
            },
            text::views(contest.station_tokens@),
            r,
        ),
{
    let token = match extract_token(req) {
        Some(t) => t,
        None => {
            return Err(HttpError::new(401, "Missing print-station token"));
        },
    };
    if token_in(token.as_str(), &global.station_tokens) {
        return Ok(StationAuth { contest_filter: None });
    }
    let named = named_contest(req);
    match named {
        Some(_) => {
            if token_in(token.as_str(), &contest.station_tokens) {
                return Ok(StationAuth { contest_filter: named });
            }
        },
        None => {},
    }
    Err(HttpError::new(403, "Invalid print-station token"))
}

/// A station with the token of a contest sees that contest and no other.
pub proof fn contest_tokens_open_one_contest(
    token: Option<Seq<char>>,
    site: Seq<Seq<char>>,
    named: Option<i32>,
    contest: Seq<Seq<char>>,
    auth: StationAuth,
)
    requires
        admits(token, site, named, contest, Ok(auth)),
        !(token is Some && site.contains(token->0)),
    ensures
        named is Some,
        auth.contest_filter == named,
        token is Some && contest.contains(token->0),
{
}

} // verus!
