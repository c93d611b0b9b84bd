//! What the reads of ICPC contests ask for.

use vstd::prelude::*;

use crate::icpc::board;
use crate::icpc::visibility;
use crate::sql;
use crate::sql::{Query, SqlView};
use crate::text;

verus! {

/// The standings read the current judgement of a submission once it is final, of the
/// problems of the contest, with the time since its start.
pub proof fn standings_read_current_final_judgements(contest: Seq<char>, user_filter: Seq<char>)
    ensures
        sql::says(board::current_submissions_text(contest, user_filter), "sj.submission_id = s.id AND sj.is_current = TRUE AND sj.is_finalized = TRUE"@),
        sql::says(board::current_submissions_text(contest, user_filter), "EXTRACT(EPOCH FROM (s.created_at - c.start_time)) * 1000 AS elapsed_ms"@),
        sql::says(board::current_submissions_text(contest, user_filter), "c.id = s.contest_id"@),
        sql::says(board::current_submissions_text(contest, user_filter), "cp.contest_id = s.contest_id AND cp.problem_id = s.problem_id"@),
        sql::says(board::current_submissions_text(contest, user_filter), "WHERE s.contest_id = "@ + contest),
{
    reveal_strlit("SELECT s.id AS submission_id, s.user_id, s.problem_id, sj.status::text AS status, sj.verdict");
    let p0 = "SELECT s.id AS submission_id, s.user_id, s.problem_id, sj.status::text AS status, sj.verdict"@;
    reveal_strlit("::text AS verdict, EXTRACT(EPOCH FROM (s.created_at - c.start_time)) * 1000 AS elapsed_ms FROM submission s JOIN submission_judgement sj ON sj.submission_id = s.id AND sj.is_current = TRUE AND sj.is_finalized = TRUE JOIN contest c ON c.id = s.contest_id JOIN contest_problem cp ON cp.contest_id = s.contest_id AND cp.problem_id = s.problem_id WHERE s.contest_id = ");
    let p1 = "::text AS verdict, EXTRACT(EPOCH FROM (s.created_at - c.start_time)) * 1000 AS elapsed_ms FROM submission s JOIN submission_judgement sj ON sj.submission_id = s.id AND sj.is_current = TRUE AND sj.is_finalized = TRUE JOIN contest c ON c.id = s.contest_id JOIN contest_problem cp ON cp.contest_id = s.contest_id AND cp.problem_id = s.problem_id WHERE s.contest_id = "@;
    let p2 = contest;
    let p3 = user_filter;
    let all = board::current_submissions_text(contest, user_filter);
    reveal_strlit("sj.submission_id = s.id AND sj.is_current = TRUE AND sj.is_finalized = TRUE");
    assert(p1.subrange(140, 215) =~= "sj.submission_id = s.id AND sj.is_current = TRUE AND sj.is_finalized = TRUE"@);
    assert(text::stands_at(p1, "sj.submission_id = s.id AND sj.is_current = TRUE AND sj.is_finalized = TRUE"@, 140));
    sql::lemma_says(p0, p1, p2 + p3, "sj.submission_id = s.id AND sj.is_current = TRUE AND sj.is_finalized = TRUE"@);
    assert(all =~= (p0) + p1 + (p2 + p3));
    reveal_strlit("EXTRACT(EPOCH FROM (s.created_at - c.start_time)) * 1000 AS elapsed_ms");
    assert(p1.subrange(19, 89) =~= "EXTRACT(EPOCH FROM (s.created_at - c.start_time)) * 1000 AS elapsed_ms"@);
    assert(text::stands_at(p1, "EXTRACT(EPOCH FROM (s.created_at - c.start_time)) * 1000 AS elapsed_ms"@, 19));
    sql::lemma_says(p0, p1, p2 + p3, "EXTRACT(EPOCH FROM (s.created_at - c.start_time)) * 1000 AS elapsed_ms"@);
    assert(all =~= (p0) + p1 + (p2 + p3));
    reveal_strlit("c.id = s.contest_id");
    assert(p1.subrange(234, 253) =~= "c.id = s.contest_id"@);
    assert(text::stands_at(p1, "c.id = s.contest_id"@, 234));
    sql::lemma_says(p0, p1, p2 + p3, "c.id = s.contest_id"@);
    assert(all =~= (p0) + p1 + (p2 + p3));
    reveal_strlit("cp.contest_id = s.contest_id AND cp.problem_id = s.problem_id");
    assert(p1.subrange(281, 342) =~= "cp.contest_id = s.contest_id AND cp.problem_id = s.problem_id"@);
    assert(text::stands_at(p1, "cp.contest_id = s.contest_id AND cp.problem_id = s.problem_id"@, 281));
    sql::lemma_says(p0, p1, p2 + p3, "cp.contest_id = s.contest_id AND cp.problem_id = s.problem_id"@);
    assert(all =~= (p0) + p1 + (p2 + p3));
    reveal_strlit("WHERE s.contest_id = ");
    assert(p1.subrange(343, 364) =~= "WHERE s.contest_id = "@);
    assert(text::has_suffix(p1, "WHERE s.contest_id = "@));
    sql::lemma_says_joined(p0, p1, p2, p3, "WHERE s.contest_id = "@);
    assert(all =~= (p0) + p1 + p2 + (p3));
}

/// The rows of the board are those who are registered for the contest, in the order
/// of their registration.
pub proof fn the_board_lists_who_is_registered(contest: Seq<char>, user_filter: Seq<char>)
    ensures
        sql::says(board::participants_text(contest, user_filter), "FROM contest_user cu"@),
        sql::says(board::participants_text(contest, user_filter), "u.id = cu.user_id"@),
        sql::says(board::participants_text(contest, user_filter), " ORDER BY cu.registered_at ASC"@),
        sql::says(board::participants_text(contest, user_filter), "WHERE cu.contest_id = "@ + contest),
{
    reveal_strlit("SELECT cu.user_id, u.username FROM contest_user cu JOIN \"user\" u ON u.id = cu.user_id WHERE cu.contest_id = ");
    let p0 = "SELECT cu.user_id, u.username FROM contest_user cu JOIN \"user\" u ON u.id = cu.user_id WHERE cu.contest_id = "@;
    let p1 = contest;
    let p2 = user_filter;
    reveal_strlit(" ORDER BY cu.registered_at ASC");
    let p3 = " ORDER BY cu.registered_at ASC"@;
    let all = board::participants_text(contest, user_filter);
    reveal_strlit("FROM contest_user cu");
    assert(p0.subrange(30, 50) =~= "FROM contest_user cu"@);
    assert(text::stands_at(p0, "FROM contest_user cu"@, 30));
    sql::lemma_says(Seq::<char>::empty(), p0, p1 + p2 + p3, "FROM contest_user cu"@);
    assert(all =~= Seq::<char>::empty() + p0 + (p1 + p2 + p3));
    reveal_strlit("u.id = cu.user_id");
    assert(p0.subrange(68, 85) =~= "u.id = cu.user_id"@);
    assert(text::stands_at(p0, "u.id = cu.user_id"@, 68));
    sql::lemma_says(Seq::<char>::empty(), p0, p1 + p2 + p3, "u.id = cu.user_id"@);
    assert(all =~= Seq::<char>::empty() + p0 + (p1 + p2 + p3));
    reveal_strlit(" ORDER BY cu.registered_at ASC");
    assert(p3.subrange(0, 30) =~= " ORDER BY cu.registered_at ASC"@);
    assert(text::stands_at(p3, " ORDER BY cu.registered_at ASC"@, 0));
    sql::lemma_says(p0 + p1 + p2, p3, Seq::<char>::empty(), " ORDER BY cu.registered_at ASC"@);
    assert(all =~= (p0 + p1 + p2) + p3 + (Seq::<char>::empty()));
    reveal_strlit("WHERE cu.contest_id = ");
    assert(p0.subrange(86, 108) =~= "WHERE cu.contest_id = "@);
    assert(text::has_suffix(p0, "WHERE cu.contest_id = "@));
    sql::lemma_says_joined(Seq::<char>::empty(), p0, p1, p2 + p3, "WHERE cu.contest_id = "@);
    assert(all =~= Seq::<char>::empty() + p0 + p1 + (p2 + p3));
}

/// What decides on hidden results is timed by the contest: before its start, after
/// its end or during it; how long it lasts, and when the submission was made.
pub proof fn freezes_are_timed_by_the_contest(placeholders: Seq<char>)
    ensures
        sql::says(visibility::freeze_rows_text(placeholders), "WHEN NOW() < c.start_time THEN 'before'"@),
        sql::says(visibility::freeze_rows_text(placeholders), "WHEN NOW() > c.end_time THEN 'after'"@),
        sql::says(visibility::freeze_rows_text(placeholders), "ELSE 'during' END AS phase"@),
        sql::says(visibility::freeze_rows_text(placeholders), "EXTRACT(EPOCH FROM (c.end_time - c.start_time)) * 1000 AS duration_ms"@),
        sql::says(visibility::freeze_rows_text(placeholders), "EXTRACT(EPOCH FROM (NOW() - c.start_time)) * 1000 AS now_elapsed_ms"@),
        sql::says(visibility::freeze_rows_text(placeholders), "EXTRACT(EPOCH FROM (s.created_at - c.start_time)) * 1000 AS submission_elapsed_ms"@),
        sql::says(visibility::freeze_rows_text(placeholders), "c.id = s.contest_id"@),
        sql::says(visibility::freeze_rows_text(placeholders), "WHERE s.id IN ("@ + placeholders),
{
    reveal_strlit("SELECT s.id AS submission_id, s.user_id, c.contest_type, CASE WHEN NOW() < c.start_time THEN 'before' WHEN NOW() > c.end_time THEN 'after' ELSE 'during' END AS phase, EXTRACT(EPOCH FROM (c.end_time - c.start_time)) * 1000 AS duration_ms, EXTRACT(EPOCH FROM (NOW() - c.start_time)) * 1000 AS now_elapsed_ms, EXTRACT(EPOCH FROM (s.created_at - c.start_time)) * 1000 AS submission_elapsed_ms FROM submission s JOIN contest c ON c.id = s.contest_id WHERE s.id IN (");
    let p0 = "SELECT s.id AS submission_id, s.user_id, c.contest_type, CASE WHEN NOW() < c.start_time THEN 'before' WHEN NOW() > c.end_time THEN 'after' ELSE 'during' END AS phase, EXTRACT(EPOCH FROM (c.end_time - c.start_time)) * 1000 AS duration_ms, EXTRACT(EPOCH FROM (NOW() - c.start_time)) * 1000 AS now_elapsed_ms, EXTRACT(EPOCH FROM (s.created_at - c.start_time)) * 1000 AS submission_elapsed_ms FROM submission s JOIN contest c ON c.id = s.contest_id WHERE s.id IN ("@;
    let p1 = placeholders;
    reveal_strlit(")");
    let p2 = ")"@;
    let all = visibility::freeze_rows_text(placeholders);
    reveal_strlit("WHEN NOW() < c.start_time THEN 'before'");
    assert(p0.subrange(62, 101) =~= "WHEN NOW() < c.start_time THEN 'before'"@);
    assert(text::stands_at(p0, "WHEN NOW() < c.start_time THEN 'before'"@, 62));
    sql::lemma_says(Seq::<char>::empty(), p0, p1 + p2, "WHEN NOW() < c.start_time THEN 'before'"@);
    assert(all =~= Seq::<char>::empty() + p0 + (p1 + p2));
    reveal_strlit("WHEN NOW() > c.end_time THEN 'after'");
    assert(p0.subrange(102, 138) =~= "WHEN NOW() > c.end_time THEN 'after'"@);
    assert(text::stands_at(p0, "WHEN NOW() > c.end_time THEN 'after'"@, 102));
    sql::lemma_says(Seq::<char>::empty(), p0, p1 + p2, "WHEN NOW() > c.end_time THEN 'after'"@);
    assert(all =~= Seq::<char>::empty() + p0 + (p1 + p2));
    reveal_strlit("ELSE 'during' END AS phase");
    assert(p0.subrange(139, 165) =~= "ELSE 'during' END AS phase"@);
    assert(text::stands_at(p0, "ELSE 'during' END AS phase"@, 139));
    sql::lemma_says(Seq::<char>::empty(), p0, p1 + p2, "ELSE 'during' END AS phase"@);
    assert(all =~= Seq::<char>::empty() + p0 + (p1 + p2));
    reveal_strlit("EXTRACT(EPOCH FROM (c.end_time - c.start_time)) * 1000 AS duration_ms");
    assert(p0.subrange(167, 236) =~= "EXTRACT(EPOCH FROM (c.end_time - c.start_time)) * 1000 AS duration_ms"@);
    assert(text::stands_at(p0, "EXTRACT(EPOCH FROM (c.end_time - c.start_time)) * 1000 AS duration_ms"@, 167));
    sql::lemma_says(Seq::<char>::empty(), p0, p1 + p2, "EXTRACT(EPOCH FROM (c.end_time - c.start_time)) * 1000 AS duration_ms"@);
    assert(all =~= Seq::<char>::empty() + p0 + (p1 + p2));
    reveal_strlit("EXTRACT(EPOCH FROM (NOW() - c.start_time)) * 1000 AS now_elapsed_ms");
    assert(p0.subrange(238, 305) =~= "EXTRACT(EPOCH FROM (NOW() - c.start_time)) * 1000 AS now_elapsed_ms"@);
    assert(text::stands_at(p0, "EXTRACT(EPOCH FROM (NOW() - c.start_time)) * 1000 AS now_elapsed_ms"@, 238));
    sql::lemma_says(Seq::<char>::empty(), p0, p1 + p2, "EXTRACT(EPOCH FROM (NOW() - c.start_time)) * 1000 AS now_elapsed_ms"@);
    assert(all =~= Seq::<char>::empty() + p0 + (p1 + p2));
    reveal_strlit("EXTRACT(EPOCH FROM (s.created_at - c.start_time)) * 1000 AS submission_elapsed_ms");
    assert(p0.subrange(307, 388) =~= "EXTRACT(EPOCH FROM (s.created_at - c.start_time)) * 1000 AS submission_elapsed_ms"@);
    assert(text::stands_at(p0, "EXTRACT(EPOCH FROM (s.created_at - c.start_time)) * 1000 AS submission_elapsed_ms"@, 307));
    sql::lemma_says(Seq::<char>::empty(), p0, p1 + p2, "EXTRACT(EPOCH FROM (s.created_at - c.start_time)) * 1000 AS submission_elapsed_ms"@);
    assert(all =~= Seq::<char>::empty() + p0 + (p1 + p2));
    reveal_strlit("c.id = s.contest_id");
    assert(p0.subrange(425, 444) =~= "c.id = s.contest_id"@);
    assert(text::stands_at(p0, "c.id = s.contest_id"@, 425));
    sql::lemma_says(Seq::<char>::empty(), p0, p1 + p2, "c.id = s.contest_id"@);
    assert(all =~= Seq::<char>::empty() + p0 + (p1 + p2));
    reveal_strlit("WHERE s.id IN (");
    assert(p0.subrange(445, 460) =~= "WHERE s.id IN ("@);
    assert(text::has_suffix(p0, "WHERE s.id IN ("@));
    sql::lemma_says_joined(Seq::<char>::empty(), p0, p1, p2, "WHERE s.id IN ("@);
    assert(all =~= Seq::<char>::empty() + p0 + p1 + (p2));
}

/// The submissions of one contestant are asked for by the contestant's id, those of
/// all without one; always of the contest.
pub proof fn one_row_reads_one_contestant(q: Query, contest_id: i32, only_user: Option<i32>)
    requires
        board::submissions_query_is(q, contest_id, only_user),
    ensures
        sql::arg_views(q.args@)[0] == SqlView::Int(contest_id as int),
        only_user is None ==> sql::arg_views(q.args@).len() == 1,
        only_user is Some ==> sql::arg_views(q.args@).len() == 2 && sql::arg_views(q.args@)[1]
            == SqlView::Int(only_user->0 as int),
        only_user is Some ==> text::has_suffix(q.sql@, " AND s.user_id = "@ + sql::placeholder(2)),
{
    if only_user is Some {
        let end = " AND s.user_id = "@ + sql::placeholder(2);
        let all = q.sql@;
        assert(all.subrange(all.len() - end.len(), all.len() as int) =~= end);
    }
}

/// The same of the rows: a contestant alone is asked for by id.
pub proof fn one_row_lists_one_contestant(q: Query, contest_id: i32, only_user: Option<i32>)
    requires
        board::participants_query_is(q, contest_id, only_user),
    ensures
        only_user is None ==> sql::arg_views(q.args@) == seq![SqlView::Int(contest_id as int)],
        only_user is Some ==> sql::arg_views(q.args@) == seq![
            SqlView::Int(only_user->0 as int),
            SqlView::Int(contest_id as int),
        ],
        only_user is Some ==> sql::says(q.sql@, " AND cu.user_id = "@ + sql::placeholder(1)),
        only_user is Some ==> sql::says(q.sql@, "WHERE cu.contest_id = "@ + sql::placeholder(2)),
        only_user is None ==> sql::says(q.sql@, "WHERE cu.contest_id = "@ + sql::placeholder(1)),
{
    match only_user {
        Some(u) => {
            let filter = " AND cu.user_id = "@ + sql::placeholder(1);
            the_board_lists_who_is_registered(sql::placeholder(2), filter);
            let all = q.sql@;
            let last = " ORDER BY cu.registered_at ASC"@;
            let at = all.len() - last.len() - filter.len();
            assert(all.subrange(at, at + filter.len()) =~= filter);
            assert(text::stands_at(all, filter, at));
        },
        None => {
            the_board_lists_who_is_registered(sql::placeholder(1), ""@);
        },
    }
}

/// The problems are those of the contest, in their order.
pub proof fn problems_are_read_in_their_order(contest_id: i32, q: Query)
    requires
        call_ensures(board::problems_query, (contest_id,), q),
    ensures
        sql::arg_views(q.args@) == seq![SqlView::Int(contest_id as int)],
        q.sql@ == "SELECT problem_id, label FROM contest_problem WHERE contest_id = "@
            + sql::placeholder(1) + " ORDER BY position"@,
{
}

/// The length of the contest and the time since its start are both read in
/// thousandths of a second.
pub proof fn times_are_read_of_the_contest(contest_id: i32, q: Query)
    requires
        call_ensures(board::times_query, (contest_id,), q),
    ensures
        sql::arg_views(q.args@) == seq![SqlView::Int(contest_id as int)],
        sql::says(q.sql@, "EXTRACT(EPOCH FROM (end_time - start_time)) * 1000 AS duration_ms"@),
        sql::says(q.sql@, "EXTRACT(EPOCH FROM (NOW() - start_time)) * 1000 AS now_elapsed_ms"@),
        sql::says(q.sql@, " FROM contest WHERE id = "@ + sql::placeholder(1)),
{
    let before = "SELECT EXTRACT(EPOCH FROM (end_time - start_time)) * 1000 AS duration_ms, EXTRACT(EPOCH FROM (NOW() - start_time)) * 1000 AS now_elapsed_ms FROM contest WHERE id = "@;
    let a = "EXTRACT(EPOCH FROM (end_time - start_time)) * 1000 AS duration_ms"@;
    let b = "EXTRACT(EPOCH FROM (NOW() - start_time)) * 1000 AS now_elapsed_ms"@;
    let c = " FROM contest WHERE id = "@;
    reveal_strlit("SELECT EXTRACT(EPOCH FROM (end_time - start_time)) * 1000 AS duration_ms, EXTRACT(EPOCH FROM (NOW() - start_time)) * 1000 AS now_elapsed_ms FROM contest WHERE id = ");
    reveal_strlit("EXTRACT(EPOCH FROM (end_time - start_time)) * 1000 AS duration_ms");
    reveal_strlit("EXTRACT(EPOCH FROM (NOW() - start_time)) * 1000 AS now_elapsed_ms");
    reveal_strlit(" FROM contest WHERE id = ");
    let all = q.sql@;
    let at_b: int = 9 + a.len() as int;
    let at_c: int = at_b + b.len() as int;
    assert(all.subrange(7, 7 + a.len() as int) =~= a);
    assert(text::stands_at(all, a, 7));
    assert(all.subrange(at_b, at_b + b.len() as int) =~= b);
    assert(text::stands_at(all, b, at_b));
    let d = c + sql::placeholder(1);
    assert(all.subrange(at_c, at_c + d.len() as int) =~= d);
    assert(text::stands_at(all, d, at_c));
}

/// A board is revealed where its mark says one, and not without a mark.
pub proof fn a_revealed_board_is_marked(flag: &Option<String>, r: bool)
    requires
        call_ensures(board::is_revealed, (flag,), r),
    ensures
        flag is None ==> !r,
        flag is Some ==> (r <==> flag->0@ == "1"@),
{
}

} // verus!
