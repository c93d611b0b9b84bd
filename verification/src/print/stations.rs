//! The statements about print stations.

use vstd::prelude::*;

use crate::print::models::HeartbeatRequest;
use crate::sql::{Draft, Query, QueryBuilder, SqlView};
use crate::sql;
use crate::statement;
use crate::statement::{Term, Upsert};
use crate::text;
use crate::text::decimal;

verus! {

/// A station counts as online for this many seconds after it checked in.
pub const ONLINE_WINDOW_SECS: u64 = 45;

/// What `serde_json::to_string` writes for a list of texts; `None` where it
/// fails.
pub uninterp spec fn json_list_of(items: Seq<Seq<char>>) -> Option<Seq<char>>;

/// `serde_json::to_string` on a list of texts: a function of the texts alone.
#[verifier::external_body]
fn json_of_list(items: &Vec<String>) -> (r: Option<String>)
    ensures
        text::opt_view(r) == json_list_of(text::views(items@)),
{
    serde_json::to_string(items).ok()
}

/// What a report says of a station, by column.
pub open spec fn report_columns(req: HeartbeatRequest, printers: Seq<char>) -> Seq<
    (Seq<char>, Term),
> {
    seq![
        ("name"@, Term::Arg(SqlView::Text(req.station@))),
        ("location"@, statement::optional(sql::text_of(req.location))),
        ("printers"@, Term::Document(Box::new(Term::Arg(SqlView::Text(printers))))),
        ("version"@, statement::optional(sql::text_of(req.version))),
        ("queue_seen"@, statement::optional(sql::int_of(req.queue_seen))),
        ("last_seen"@, Term::Now),
    ]
}

/// The column as the report has it.
pub open spec fn reported(cols: Seq<(Seq<char>, Term)>, i: int) -> (Seq<char>, Term) {
    (cols[i].0, Term::Excluded(cols[i].0, Box::new(cols[i].1)))
}

pub open spec fn heartbeat_upsert(req: HeartbeatRequest, printers: Seq<char>) -> Upsert {
    let cols = report_columns(req, printers);
    Upsert {
        table: "print_station"@,
        held: seq![],
        cols,
        keys: 1,
        sets: seq![
            reported(cols, 1),
            reported(cols, 2),
            reported(cols, 3),
            reported(cols, 4),
            ("last_seen"@, Term::Now),
        ],
        guard: None,
    }
}

/// The statement that takes in a station's report, with the list of its
/// printers written out.
pub open spec fn heartbeat_draft(req: HeartbeatRequest, printers: Seq<char>) -> Draft {
    heartbeat_upsert(req, printers).draft()
}

fn write_reported(q: &mut QueryBuilder, column: &str)
    ensures
        final(q)@ == old(q)@.text(column@).text(" = "@).text("EXCLUDED."@).text(column@),
{
    q.text(column);
    q.text(" = ");
    q.text("EXCLUDED.");
    q.text(column);
}

/// The statement that takes in a station's report, given the list of its
/// printers written out.
pub fn heartbeat_with(req: &HeartbeatRequest, printers_json: &str) -> (r: Query)
    ensures
        sql::draft_of(r) == heartbeat_draft(*req, printers_json@),
{
    let ghost stmt = heartbeat_upsert(*req, printers_json@);
    let mut q = QueryBuilder::new();
    assert(q@ =~= Draft { sql: seq![], args: stmt.held });
    q.text("INSERT INTO ");
    q.text("print_station");
    q.text(" (");
    let ghost begun = q@;
    q.text("name");
    q.text(", ");
    q.text("location");
    q.text(", ");
    q.text("printers");
    q.text(", ");
    q.text("version");
    q.text(", ");
    q.text("queue_seen");
    q.text(", ");
    q.text("last_seen");
    proof {
        reveal_with_fuel(statement::write_names, 7);
        assert(q@ == statement::write_names(stmt.cols, 6, begun));
    }
    q.text(") VALUES (");
    let ghost named = q@;
    q.string(req.station.as_str());
    q.text(", ");
    q.maybe_string(&req.location);
    q.text(", ");
    q.string(printers_json);
    q.text("::jsonb");
    q.text(", ");
    q.maybe_string(&req.version);
    q.text(", ");
    q.maybe_int(req.queue_seen);
    q.text(", ");
    q.text("NOW()");
    proof {
        reveal_with_fuel(statement::write, 2);
        reveal_with_fuel(statement::write_values, 7);
        assert(q@ == statement::write_values(stmt.cols, 6, named));
    }
    q.text(") ON CONFLICT (");
    q.text("name");
    q.text(") DO UPDATE SET ");
    let ghost keyed = q@;
    write_reported(&mut q, "location");
    q.text(", ");
    write_reported(&mut q, "printers");
    q.text(", ");
    write_reported(&mut q, "version");
    q.text(", ");
    write_reported(&mut q, "queue_seen");
    q.text(", ");
    q.text("last_seen");
    q.text(" = ");
    q.text("NOW()");
    proof {
        reveal_with_fuel(statement::write_sets, 6);
        assert(q@ == statement::write_sets(stmt.sets, 5, keyed));
    }
    q.finish()
}

pub open spec fn report_draft(req: HeartbeatRequest) -> Draft {
    heartbeat_draft(
        req,
        match json_list_of(text::views(req.printers@)) {
            Some(json) => json,
            None => "[]"@,
        },
    )
}

/// The statement that takes in a station's report.
pub fn heartbeat(req: &HeartbeatRequest) -> (r: Query)
    ensures
        sql::draft_of(r) == report_draft(*req),
{
    match json_of_list(&req.printers) {
        Some(json) => heartbeat_with(req, json.as_str()),
        None => heartbeat_with(req, "[]"),
    }
}

pub open spec fn stations_draft() -> Draft {
    Draft::empty().text(
        "SELECT name, location, printers, version, queue_seen, EXTRACT(EPOCH FROM last_seen) AS last_seen, (NOW() - last_seen) < INTERVAL '"@,
    ).text(text::decimal_digits(ONLINE_WINDOW_SECS as nat)).text(
        " seconds' AS online FROM print_station ORDER BY last_seen DESC"@,
    )
}

/// The query for all stations, the last seen first.
pub fn list_stations() -> (r: Query)
    ensures
        sql::draft_of(r) == stations_draft(),
{
    let mut q = QueryBuilder::new();
    q.text(
        "SELECT name, location, printers, version, queue_seen, EXTRACT(EPOCH FROM last_seen) AS last_seen, (NOW() - last_seen) < INTERVAL '",
    );
    q.text(decimal(ONLINE_WINDOW_SECS).as_str());
    q.text(" seconds' AS online FROM print_station ORDER BY last_seen DESC");
    q.finish()
}

} // verus!
