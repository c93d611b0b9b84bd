//! What the statements about print jobs and stations do to the rows.

use vstd::prelude::*;

use crate::print::jobs;
use crate::print::jobs::{JobFilters, NewJob};
use crate::print::models::HeartbeatRequest;
use crate::print::stations;
use crate::print::status;
use crate::sql;
use crate::sql::SqlView;
use crate::statement;
use crate::statement::{BinOp, Term, Val};
use crate::text;

verus! {

/// The value of a row in a column.
pub open spec fn at(row: Map<Seq<char>, Val>, name: Seq<char>) -> Val {
    statement::column(row, name)
}

/// The row is the job with this id, and of the contest where one is named.
pub open spec fn is_job(row: Map<Seq<char>, Val>, id: i64, contest: Option<i32>) -> bool {
    &&& at(row, "id"@) == Val::Int(id as int)
    &&& contest matches Some(c) ==> at(row, "contest_id"@) == Val::Int(c as int)
}

pub open spec fn text_or_null(v: Option<String>) -> Val {
    match v {
        Some(s) => Val::Text(s@),
        None => Val::Null,
    }
}

pub open spec fn int_or_null(v: Option<i32>) -> Val {
    match v {
        Some(n) => Val::Int(n as int),
        None => Val::Null,
    }
}

proof fn lemma_columns_differ()
    ensures
        "status"@ != "claimed_by"@,
        "status"@ != "claimed_printer"@,
        "status"@ != "claimed_at"@,
        "status"@ != "printed_at"@,
        "status"@ != "error"@,
        "status"@ != "pages"@,
        "status"@ != "target_printer"@,
        "claimed_by"@ != "claimed_printer"@,
        "claimed_by"@ != "claimed_at"@,
        "claimed_by"@ != "printed_at"@,
        "claimed_by"@ != "error"@,
        "claimed_by"@ != "pages"@,
        "claimed_by"@ != "target_printer"@,
        "claimed_printer"@ != "claimed_at"@,
        "claimed_printer"@ != "printed_at"@,
        "claimed_printer"@ != "error"@,
        "claimed_printer"@ != "pages"@,
        "claimed_printer"@ != "target_printer"@,
        "claimed_at"@ != "printed_at"@,
        "claimed_at"@ != "error"@,
        "claimed_at"@ != "pages"@,
        "printed_at"@ != "error"@,
        "printed_at"@ != "pages"@,
        "error"@ != "pages"@,
        "error"@ != "target_printer"@,
{
    reveal_strlit("status");
    reveal_strlit("claimed_by");
    reveal_strlit("claimed_printer");
    reveal_strlit("claimed_at");
    reveal_strlit("printed_at");
    reveal_strlit("error");
    reveal_strlit("pages");
    reveal_strlit("target_printer");
    assert("status"@.len() == 6);
    assert("claimed_by"@.len() == 10 && "claimed_by"@[8] == 'b');
    assert("claimed_printer"@.len() == 15);
    assert("claimed_at"@.len() == 10 && "claimed_at"@[8] == 'a' && "claimed_at"@[0] == 'c');
    assert("printed_at"@.len() == 10 && "printed_at"@[0] == 'p' && "printed_at"@[8] == 'a');
    assert("error"@.len() == 5 && "error"@[0] == 'e');
    assert("pages"@.len() == 5 && "pages"@[0] == 'p');
    assert("target_printer"@.len() == 14);
}

proof fn lemma_is_job(row: Map<Seq<char>, Val>, now: int, args: Seq<SqlView>, id: i64)
    ensures
        statement::holds(jobs::this_job(id), row, now, args) <==> at(row, "id"@) == Val::Int(
            id as int,
        ),
{
    reveal_with_fuel(statement::eval, 2);
}

proof fn lemma_within(
    condition: Term,
    contest: Option<i32>,
    row: Map<Seq<char>, Val>,
    now: int,
    args: Seq<SqlView>,
)
    ensures
        statement::holds(jobs::within_contest(condition, contest), row, now, args) <==> (
        statement::holds(condition, row, now, args) && (contest matches Some(c) ==> at(
            row,
            "contest_id"@,
        ) == Val::Int(c as int))),
{
    match contest {
        Some(c) => {
            let own = statement::bin(
                BinOp::Equal,
                Term::Column("contest_id"@),
                jobs::bound_int(c as int),
            );
            assert(statement::eval(own, row, now, args) == statement::of_truth(
                statement::equals(at(row, "contest_id"@), Val::Int(c as int)),
            )) by {
                reveal_with_fuel(statement::eval, 2);
            }
            let a = statement::eval(condition, row, now, args);
            let b = statement::eval(own, row, now, args);
            assert(statement::eval(jobs::within_contest(condition, contest), row, now, args)
                == statement::of_truth(statement::both(statement::truth(a), statement::truth(b))));
        },
        None => {},
    }
}

proof fn lemma_if_status(
    id: i64,
    op: BinOp,
    word: Seq<char>,
    row: Map<Seq<char>, Val>,
    now: int,
    args: Seq<SqlView>,
)
    requires
        op is Equal || op is Differs,
    ensures
        statement::holds(jobs::this_job_if(id, op, word), row, now, args) <==> {
            &&& at(row, "id"@) == Val::Int(id as int)
            &&& !(at(row, "status"@) is Null)
            &&& at(row, "status"@) == Val::Text(word) <==> op is Equal
        },
{
    lemma_is_job(row, now, args, id);
    let status = statement::bin(op, Term::Column("status"@), Term::Word(word));
    let truth = statement::equals(at(row, "status"@), Val::Text(word));
    assert(statement::eval(status, row, now, args) == (if op is Equal {
        statement::of_truth(truth)
    } else {
        statement::of_truth(statement::negated(truth))
    })) by {
        reveal_with_fuel(statement::eval, 2);
    }
    let a = statement::eval(jobs::this_job(id), row, now, args);
    let b = statement::eval(status, row, now, args);
    assert(statement::eval(jobs::this_job_if(id, op, word), row, now, args) == statement::of_truth(
        statement::both(statement::truth(a), statement::truth(b)),
    ));
}

// ---------------------------------------------------------------------------
// Stations
// ---------------------------------------------------------------------------

/// Claiming takes a pending job, of the station's contest where it has one, and
/// gives it to the station at once: nobody else can claim it then. Every other
/// row stays as it is, and so does every other column.
pub proof fn claiming_takes_a_pending_job(
    id: i64,
    station: Seq<char>,
    printer: Option<String>,
    contest: Option<i32>,
    row: Map<Seq<char>, Val>,
    now: int,
    name: Seq<char>,
)
    ensures
        ({
            let u = jobs::claim_update(id, station, printer, contest);
            let after = u.run(row, now);
            &&& u.draft() == jobs::claim_draft(id, station, printer, contest)
            &&& u.takes(row, now) <==> is_job(row, id, contest) && at(row, "status"@) == Val::Text(
                "pending"@,
            )
            &&& !u.takes(row, now) ==> after == row
            &&& u.takes(row, now) ==> {
                &&& at(after, "status"@) == Val::Text("claimed"@)
                &&& at(after, "claimed_by"@) == Val::Text(station)
                &&& at(after, "claimed_printer"@) == text_or_null(printer)
                &&& at(after, "claimed_at"@) == Val::Time(now)
                &&& name != "status"@ && name != "claimed_by"@ && name != "claimed_printer"@ && name
                    != "claimed_at"@ ==> at(after, name) == at(row, name)
                &&& !u.takes(after, now)
            }
        }),
{
    lemma_columns_differ();
    let u = jobs::claim_update(id, station, printer, contest);
    let args = u.draft().args;
    let mine = jobs::this_job_if(id, BinOp::Equal, "pending"@);
    lemma_if_status(id, BinOp::Equal, "pending"@, row, now, args);
    lemma_within(mine, contest, row, now, args);
    reveal_with_fuel(statement::with_sets, 5);
    let after = u.run(row, now);
    lemma_if_status(id, BinOp::Equal, "pending"@, after, now, args);
    lemma_within(mine, contest, after, now, args);
    assert("pending"@ != "claimed"@) by {
        reveal_strlit("pending");
        reveal_strlit("claimed");
        assert("pending"@[0] == 'p');
        assert("claimed"@[0] == 'c');
    }
}

/// A station's report sets the status and the error of the job, the pages where
/// it tells them, and the time where the job is done or has failed; of a job of
/// its contest, where it has one, and of no other.
pub proof fn a_report_is_taken_in(
    id: i64,
    new_status: Seq<char>,
    pages: Option<i32>,
    error: Option<String>,
    contest: Option<i32>,
    row: Map<Seq<char>, Val>,
    now: int,
    name: Seq<char>,
)
    ensures
        ({
            let u = jobs::status_update(id, new_status, pages, error, contest);
            let after = u.run(row, now);
            &&& u.draft() == jobs::status_draft(id, new_status, pages, error, contest)
            &&& u.takes(row, now) <==> is_job(row, id, contest)
            &&& !u.takes(row, now) ==> after == row
            &&& u.takes(row, now) ==> {
                &&& at(after, "status"@) == Val::Text(new_status)
                &&& at(after, "error"@) == text_or_null(error)
                &&& pages is Some ==> at(after, "pages"@) == Val::Int(pages->0 as int)
                &&& pages is None ==> at(after, "pages"@) == at(row, "pages"@)
                &&& new_status == "done"@ || new_status == "failed"@ ==> at(after, "printed_at"@)
                    == Val::Time(now)
                &&& new_status != "done"@ && new_status != "failed"@ ==> at(after, "printed_at"@)
                    == at(row, "printed_at"@)
                &&& name != "status"@ && name != "error"@ && name != "pages"@ && name
                    != "printed_at"@ ==> at(after, name) == at(row, name)
            }
        }),
{
    lemma_columns_differ();
    let u = jobs::status_update(id, new_status, pages, error, contest);
    let args = u.draft().args;
    lemma_is_job(row, now, args, id);
    lemma_within(jobs::this_job(id), contest, row, now, args);
    reveal_with_fuel(statement::with_sets, 5);
}

/// A station is shown the pending jobs of its contest, or of all where it has
/// none, for its location or for any; and at least one and at most a hundred of
/// them.
pub proof fn stations_see_what_they_may_claim(
    contest: Option<i32>,
    location: Option<Seq<char>>,
    limit: int,
    row: Map<Seq<char>, Val>,
    now: int,
    args: Seq<SqlView>,
)
    ensures
        statement::holds(jobs::claimable_jobs(contest, location), row, now, args) <==> {
            &&& at(row, "status"@) == Val::Text("pending"@)
            &&& contest matches Some(c) ==> at(row, "contest_id"@) == Val::Int(c as int)
            &&& location is Some && location->0.len() > 0 ==> (at(row, "location"@) is Null || at(
                row,
                "location"@,
            ) == Val::Text(location->0))
        },
        jobs::station_jobs_draft(contest, location, limit).args.last() == SqlView::Int(
            jobs::clamp(limit, 1, 100),
        ),
        1 <= jobs::clamp(limit, 1, 100) <= 100,
        1 <= limit <= 100 ==> jobs::clamp(limit, 1, 100) == limit,
{
    let pending = statement::bin(
        BinOp::Equal,
        Term::Column("status"@),
        jobs::bound_text(status::PENDING@),
    );
    assert(statement::eval(pending, row, now, args) == statement::of_truth(
        statement::equals(at(row, "status"@), Val::Text("pending"@)),
    )) by {
        reveal_with_fuel(statement::eval, 2);
    }
    lemma_within(pending, contest, row, now, args);
    let all = jobs::within_contest(pending, contest);
    if location is Some && location->0.len() > 0 {
        let l = location->0;
        let here = statement::bin(
            BinOp::Or,
            Term::IsNull(Box::new(Term::Column("location"@))),
            statement::bin(BinOp::Equal, Term::Column("location"@), jobs::bound_text(l)),
        );
        assert(statement::eval(here, row, now, args) == statement::of_truth(
            statement::either(
                Some(at(row, "location"@) is Null),
                statement::truth(
                    statement::of_truth(statement::equals(at(row, "location"@), Val::Text(l))),
                ),
            ),
        )) by {
            reveal_with_fuel(statement::eval, 3);
        }
        let group = Term::Group(Box::new(here));
        assert(statement::eval(group, row, now, args) == statement::eval(here, row, now, args));
        let a = statement::eval(all, row, now, args);
        let b = statement::eval(group, row, now, args);
        assert(statement::eval(jobs::claimable_jobs(contest, location), row, now, args)
            == statement::of_truth(statement::both(statement::truth(a), statement::truth(b))));
    }
}

/// A report of a station is kept under its name: whatever was known of it, what
/// the report says holds now, and it was seen now. Other stations stay as they
/// are.
pub proof fn a_station_is_known_by_its_last_report(
    req: HeartbeatRequest,
    printers: Seq<char>,
    rows: Map<Seq<Val>, Map<Seq<char>, Val>>,
    now: int,
    other: Seq<Val>,
)
    ensures
        ({
            let u = stations::heartbeat_upsert(req, printers);
            let after = u.run(rows, now);
            let key = seq![Val::Text(req.station@)];
            &&& u.draft() == stations::heartbeat_draft(req, printers)
            &&& after.contains_key(key)
            &&& at(after[key], "location"@) == text_or_null(req.location)
            &&& at(after[key], "printers"@) == Val::Text(printers)
            &&& at(after[key], "version"@) == text_or_null(req.version)
            &&& at(after[key], "queue_seen"@) == int_or_null(req.queue_seen)
            &&& at(after[key], "last_seen"@) == Val::Time(now)
            &&& !rows.contains_key(key) ==> at(after[key], "name"@) == Val::Text(req.station@)
            &&& rows.contains_key(key) ==> at(after[key], "name"@) == at(rows[key], "name"@)
            &&& other != key ==> (after.contains_key(other) <==> rows.contains_key(other))
            &&& other != key && rows.contains_key(other) ==> after[other] == rows[other]
        }),
{
    let u = stations::heartbeat_upsert(req, printers);
    let args = u.draft().args;
    let cols = u.cols;
    lemma_station_columns();
    reveal_with_fuel(statement::eval, 3);
    reveal_with_fuel(statement::with_sets, 7);
    assert(u.key(now) =~= seq![Val::Text(req.station@)]);
    let key = u.key(now);
    let none = Map::<Seq<char>, Val>::empty();
    let added = u.added(now);
    assert(added == statement::with_sets(none, cols, 6, now, args));
    if rows.contains_key(key) {
        let old_row = rows[key];
        let new_row = statement::with_sets(old_row, u.sets, 5, now, args);
        assert(u.run(rows, now)[key] == new_row);
    } else {
        assert(u.run(rows, now)[key] == added);
    }
}

proof fn lemma_station_columns()
    ensures
        "name"@ != "location"@,
        "name"@ != "printers"@,
        "name"@ != "version"@,
        "name"@ != "queue_seen"@,
        "name"@ != "last_seen"@,
        "location"@ != "printers"@,
        "location"@ != "version"@,
        "location"@ != "queue_seen"@,
        "location"@ != "last_seen"@,
        "printers"@ != "version"@,
        "printers"@ != "queue_seen"@,
        "printers"@ != "last_seen"@,
        "version"@ != "queue_seen"@,
        "version"@ != "last_seen"@,
        "queue_seen"@ != "last_seen"@,
{
    reveal_strlit("name");
    reveal_strlit("location");
    reveal_strlit("printers");
    reveal_strlit("version");
    reveal_strlit("queue_seen");
    reveal_strlit("last_seen");
    assert("name"@.len() == 4);
    assert("location"@.len() == 8 && "location"@[0] == 'l');
    assert("printers"@.len() == 8 && "printers"@[0] == 'p');
    assert("version"@.len() == 7);
    assert("queue_seen"@.len() == 10);
    assert("last_seen"@.len() == 9);
}

// ---------------------------------------------------------------------------
// Staff
// ---------------------------------------------------------------------------

/// Approving puts a job that awaits approval into the queue, and touches no other
/// job and no other column.
pub proof fn approving_queues_what_awaits_approval(
    id: i64,
    row: Map<Seq<char>, Val>,
    now: int,
    name: Seq<char>,
)
    ensures
        ({
            let u = jobs::approve_update(id);
            let after = u.run(row, now);
            &&& u.draft() == jobs::approve_draft(id)
            &&& u.takes(row, now) <==> at(row, "id"@) == Val::Int(id as int) && at(row, "status"@)
                == Val::Text("pending_approval"@)
            &&& !u.takes(row, now) ==> after == row
            &&& u.takes(row, now) ==> at(after, "status"@) == Val::Text("pending"@)
            &&& name != "status"@ ==> at(after, name) == at(row, name)
        }),
{
    let u = jobs::approve_update(id);
    lemma_if_status(id, BinOp::Equal, "pending_approval"@, row, now, u.draft().args);
    reveal_with_fuel(statement::with_sets, 2);
}

/// Canceling stops a job that has not been printed; one that is done stays done.
pub proof fn canceling_spares_what_is_done(
    id: i64,
    row: Map<Seq<char>, Val>,
    now: int,
    name: Seq<char>,
)
    requires
        !(at(row, "status"@) is Null),
    ensures
        ({
            let u = jobs::cancel_update(id);
            let after = u.run(row, now);
            &&& u.draft() == jobs::cancel_draft(id)
            &&& u.takes(row, now) <==> at(row, "id"@) == Val::Int(id as int) && at(row, "status"@)
                != Val::Text("done"@)
            &&& !u.takes(row, now) ==> after == row
            &&& u.takes(row, now) ==> at(after, "status"@) == Val::Text("canceled"@)
            &&& name != "status"@ ==> at(after, name) == at(row, name)
        }),
{
    let u = jobs::cancel_update(id);
    lemma_if_status(id, BinOp::Differs, "done"@, row, now, u.draft().args);
    reveal_with_fuel(statement::with_sets, 2);
}

/// Pinning a job sends it to the printer, or to any where none is named, and back
/// into the queue: no station has it then, and it has no error.
pub proof fn pinning_queues_a_job_for_a_printer(
    id: i64,
    printer: Option<String>,
    row: Map<Seq<char>, Val>,
    now: int,
    name: Seq<char>,
)
    ensures
        ({
            let u = jobs::pin_update(id, printer);
            let after = u.run(row, now);
            &&& u.draft() == jobs::pin_draft(id, printer)
            &&& u.takes(row, now) <==> at(row, "id"@) == Val::Int(id as int)
            &&& !u.takes(row, now) ==> after == row
            &&& u.takes(row, now) ==> {
                &&& printer is Some && printer->0@.len() > 0 ==> at(after, "target_printer"@)
                    == Val::Text(printer->0@)
                &&& printer is None || printer->0@.len() == 0 ==> at(after, "target_printer"@)
                    == Val::Null
                &&& at(after, "status"@) == Val::Text("pending"@)
                &&& at(after, "claimed_by"@) == Val::Null
                &&& at(after, "claimed_printer"@) == Val::Null
                &&& at(after, "error"@) == Val::Null
                &&& name != "target_printer"@ && name != "status"@ && name != "claimed_by"@ && name
                    != "claimed_printer"@ && name != "error"@ ==> at(after, name) == at(row, name)
            }
        }),
{
    lemma_columns_differ();
    let u = jobs::pin_update(id, printer);
    lemma_is_job(row, now, u.draft().args, id);
    reveal_with_fuel(statement::with_sets, 6);
}

/// Printing again puts a job back into the queue as if it had never been claimed
/// or printed.
pub proof fn printing_again_starts_over(
    id: i64,
    row: Map<Seq<char>, Val>,
    now: int,
    name: Seq<char>,
)
    ensures
        ({
            let u = jobs::reprint_update(id);
            let after = u.run(row, now);
            &&& u.draft() == jobs::reprint_draft(id)
            &&& u.takes(row, now) <==> at(row, "id"@) == Val::Int(id as int)
            &&& !u.takes(row, now) ==> after == row
            &&& u.takes(row, now) ==> {
                &&& at(after, "status"@) == Val::Text("pending"@)
                &&& at(after, "claimed_by"@) == Val::Null
                &&& at(after, "claimed_printer"@) == Val::Null
                &&& at(after, "claimed_at"@) == Val::Null
                &&& at(after, "printed_at"@) == Val::Null
                &&& at(after, "error"@) == Val::Null
                &&& at(after, "pages"@) == Val::Null
                &&& name != "status"@ && name != "claimed_by"@ && name != "claimed_printer"@ && name
                    != "claimed_at"@ && name != "printed_at"@ && name != "error"@ && name
                    != "pages"@ ==> at(after, name) == at(row, name)
            }
        }),
{
    lemma_columns_differ();
    let u = jobs::reprint_update(id);
    lemma_is_job(row, now, u.draft().args, id);
    reveal_with_fuel(statement::with_sets, 8);
}

/// A job that was claimed can be claimed again once it is printed again or
/// pinned.
pub proof fn what_goes_back_can_be_claimed(
    id: i64,
    printer: Option<String>,
    station: Seq<char>,
    claimed_printer: Option<String>,
    row: Map<Seq<char>, Val>,
    now: int,
)
    requires
        at(row, "id"@) == Val::Int(id as int),
    ensures
        jobs::claim_update(id, station, claimed_printer, None).takes(
            jobs::reprint_update(id).run(row, now),
            now,
        ),
        jobs::claim_update(id, station, claimed_printer, None).takes(
            jobs::pin_update(id, printer).run(row, now),
            now,
        ),
{
    lemma_id_is_kept();
    printing_again_starts_over(id, row, now, "id"@);
    pinning_queues_a_job_for_a_printer(id, printer, row, now, "id"@);
    claiming_takes_a_pending_job(
        id,
        station,
        claimed_printer,
        None,
        jobs::reprint_update(id).run(row, now),
        now,
        "id"@,
    );
    claiming_takes_a_pending_job(
        id,
        station,
        claimed_printer,
        None,
        jobs::pin_update(id, printer).run(row, now),
        now,
        "id"@,
    );
}

proof fn lemma_id_is_kept()
    ensures
        "id"@ != "status"@,
        "id"@ != "claimed_by"@,
        "id"@ != "claimed_printer"@,
        "id"@ != "claimed_at"@,
        "id"@ != "printed_at"@,
        "id"@ != "error"@,
        "id"@ != "pages"@,
        "id"@ != "target_printer"@,
{
    reveal_strlit("id");
    reveal_strlit("status");
    reveal_strlit("claimed_by");
    reveal_strlit("claimed_printer");
    reveal_strlit("claimed_at");
    reveal_strlit("printed_at");
    reveal_strlit("error");
    reveal_strlit("pages");
    reveal_strlit("target_printer");
    assert("id"@.len() == 2);
    assert("status"@.len() == 6);
    assert("claimed_by"@.len() == 10);
    assert("claimed_printer"@.len() == 15);
    assert("claimed_at"@.len() == 10);
    assert("printed_at"@.len() == 10);
    assert("error"@.len() == 5);
    assert("pages"@.len() == 5);
    assert("target_printer"@.len() == 14);
}

// ---------------------------------------------------------------------------
// New jobs and lists
// ---------------------------------------------------------------------------

/// A contestant's list holds the contestant's own jobs, of the contest where one
/// is named.
pub proof fn contestants_list_their_own_jobs(
    user_id: i32,
    contest: Option<i32>,
    row: Map<Seq<char>, Val>,
    now: int,
    args: Seq<SqlView>,
)
    ensures
        statement::holds(jobs::own_jobs(user_id, contest), row, now, args) <==> {
            &&& at(row, "user_id"@) == Val::Int(user_id as int)
            &&& contest matches Some(c) ==> at(row, "contest_id"@) == Val::Int(c as int)
        },
{
    let own = statement::bin(
        BinOp::Equal,
        Term::Column("user_id"@),
        jobs::bound_int(user_id as int),
    );
    assert(statement::eval(own, row, now, args) == statement::of_truth(
        statement::equals(at(row, "user_id"@), Val::Int(user_id as int)),
    )) by {
        reveal_with_fuel(statement::eval, 2);
    }
    lemma_within(own, contest, row, now, args);
}

/// A new row has everything that the job has, each in its column.
pub proof fn a_new_row_tells_the_job(job: NewJob, now: int)
    ensures
        ({
            let s = jobs::insert_statement(job);
            let row = s.added(now);
            &&& s.draft() == jobs::insert_draft(job)
            &&& at(row, "contest_id"@) == int_or_null(job.contest_id)
            &&& at(row, "user_id"@) == Val::Int(job.user_id as int)
            &&& at(row, "username"@) == Val::Text(job.username@)
            &&& at(row, "display_name"@) == text_or_null(job.display_name)
            &&& at(row, "problem_label"@) == text_or_null(job.problem_label)
            &&& at(row, "submission_id"@) == int_or_null(job.submission_id)
            &&& at(row, "language"@) == Val::Text(job.language@)
            &&& at(row, "filename"@) == Val::Text(job.filename@)
            &&& at(row, "source"@) == Val::Text(job.source@)
            &&& at(row, "pages_est"@) == Val::Int(job.pages_est as int)
            &&& at(row, "status"@) == Val::Text(job.status@)
        }),
{
    let s = jobs::insert_statement(job);
    let args = s.draft().args;
    let cols = s.cols;
    lemma_job_columns();
    let none = Map::<Seq<char>, Val>::empty();
    reveal_with_fuel(statement::with_sets, 12);
    assert(s.added(now) == statement::with_sets(none, cols, 11, now, args));
}

proof fn lemma_job_columns()
    ensures
        jobs_columns_differ(),
{
    reveal_strlit("contest_id");
    reveal_strlit("user_id");
    reveal_strlit("username");
    reveal_strlit("display_name");
    reveal_strlit("problem_label");
    reveal_strlit("submission_id");
    reveal_strlit("language");
    reveal_strlit("filename");
    reveal_strlit("source");
    reveal_strlit("pages_est");
    reveal_strlit("status");
    assert("contest_id"@.len() == 10);
    assert("user_id"@.len() == 7);
    assert("username"@.len() == 8 && "username"@[0] == 'u');
    assert("display_name"@.len() == 12);
    assert("problem_label"@.len() == 13 && "problem_label"@[0] == 'p');
    assert("submission_id"@.len() == 13 && "submission_id"@[0] == 's');
    assert("language"@.len() == 8 && "language"@[0] == 'l');
    assert("filename"@.len() == 8 && "filename"@[0] == 'f');
    assert("source"@.len() == 6 && "source"@[1] == 'o');
    assert("pages_est"@.len() == 9);
    assert("status"@.len() == 6 && "status"@[1] == 't');
}

/// The columns of a new job are all different.
pub open spec fn jobs_columns_differ() -> bool {
    seq![
        "contest_id"@,
        "user_id"@,
        "username"@,
        "display_name"@,
        "problem_label"@,
        "submission_id"@,
        "language"@,
        "filename"@,
        "source"@,
        "pages_est"@,
        "status"@,
    ].no_duplicates()
}

/// A list of the staff is cut into pages: page `n` starts after the pages before
/// it, and a page holds at least one and at most two hundred rows.
pub proof fn pages_follow_each_other(f: JobFilters, next: JobFilters)
    requires
        f.page >= 1,
        next.page == f.page + 1,
        next.per_page == f.per_page,
    ensures
        jobs::offset_of(next) == jobs::offset_of(f) + jobs::clamp(f.per_page as int, 1, 200),
        1 <= jobs::clamp(f.per_page as int, 1, 200) <= 200,
        1 <= f.per_page <= 200 ==> jobs::clamp(f.per_page as int, 1, 200) == f.per_page,
        f.page == 1 ==> jobs::offset_of(f) == 0,
        jobs::admin_page_draft(f).args.last() == SqlView::Int(jobs::offset_of(f)),
{
    let p = f.page as int;
    let n = jobs::clamp(f.per_page as int, 1, 200);
    assert((p + 1 - 1) * n == (p - 1) * n + n) by (nonlinear_arith);
    assert(p == 1 ==> (p - 1) * n == 0) by (nonlinear_arith);
}

/// A list is sorted by one of the columns that may be asked for, else by the time
/// of the jobs; upwards only where that is asked for, in any case.
pub proof fn lists_are_sorted_by_known_columns(by: Seq<char>, order: Seq<char>)
    ensures
        by == "id"@ || by == "status"@ || by == "contest_id"@ || by == "username"@
            ==> jobs::sort_column_of(by) == by,
        by != "id"@ && by != "status"@ && by != "contest_id"@ && by != "username"@
            ==> jobs::sort_column_of(by) == "created_at"@,
        jobs::sort_direction_of(order) == "ASC"@ <==> text::ascii_lower_all(order) == "asc"@,
        jobs::sort_direction_of(order) == "ASC"@ || jobs::sort_direction_of(order) == "DESC"@,
{
    assert("ASC"@ != "DESC"@) by {
        reveal_strlit("ASC");
        reveal_strlit("DESC");
        assert("ASC"@.len() == 3);
        assert("DESC"@.len() == 4);
    }
}

} // verus!
