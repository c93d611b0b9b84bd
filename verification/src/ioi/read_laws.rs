//! What the reads of IOI contests ask for.

use vstd::prelude::*;

use crate::ioi::config::ScoringMode;
use crate::ioi::feedback;
use crate::ioi::score;
use crate::ioi::score::OfficialPlan;
use crate::ioi::scoreboard;
use crate::ioi::tokens::TokenState;
use crate::sql;
use crate::sql::SqlView;
use crate::text;

verus! {

/// The best score is the largest of the current judgements.
pub proof fn the_best_score_is_read()
    ensures
        sql::says(score::best_head(), "SELECT MAX(sj.score)"@),
        sql::says(score::best_head(), "sj.submission_id = s.id AND sj.is_current = TRUE AND sj.judge_epoch = s.judge_epoch"@),
{
    reveal_strlit("SELECT MAX(sj.score) as max_score FROM submission s JOIN submission_judgement sj ON sj.submission_id = s.id AND sj.is_current = TRUE AND sj.judge_epoch = s.judge_epoch ");
    let p0 = "SELECT MAX(sj.score) as max_score FROM submission s JOIN submission_judgement sj ON sj.submission_id = s.id AND sj.is_current = TRUE AND sj.judge_epoch = s.judge_epoch "@;
    let all = score::best_head();
    reveal_strlit("SELECT MAX(sj.score)");
    assert(p0.subrange(0, 20) =~= "SELECT MAX(sj.score)"@);
    assert(text::stands_at(p0, "SELECT MAX(sj.score)"@, 0));
    sql::lemma_says(Seq::<char>::empty(), p0, Seq::<char>::empty(), "SELECT MAX(sj.score)"@);
    assert(all =~= Seq::<char>::empty() + p0 + (Seq::<char>::empty()));
    reveal_strlit("sj.submission_id = s.id AND sj.is_current = TRUE AND sj.judge_epoch = s.judge_epoch");
    assert(p0.subrange(84, 167) =~= "sj.submission_id = s.id AND sj.is_current = TRUE AND sj.judge_epoch = s.judge_epoch"@);
    assert(text::stands_at(p0, "sj.submission_id = s.id AND sj.is_current = TRUE AND sj.judge_epoch = s.judge_epoch"@, 84));
    sql::lemma_says(Seq::<char>::empty(), p0, Seq::<char>::empty(), "sj.submission_id = s.id AND sj.is_current = TRUE AND sj.judge_epoch = s.judge_epoch"@);
    assert(all =~= Seq::<char>::empty() + p0 + (Seq::<char>::empty()));
}

/// The best score with a token is the largest of the current final judgements of the
/// submissions with one, on the problem.
pub proof fn the_best_tokened_score_is_read(n: nat)
    ensures
        sql::says(score::tokened_text(n), "SELECT MAX(sj.score)"@),
        sql::says(score::tokened_text(n), "sj.submission_id = s.id AND sj.is_current = TRUE AND sj.is_finalized = TRUE AND sj.judge_epoch = s.judge_epoch"@),
        sql::says(score::tokened_text(n), "WHERE s.id IN ("@ + sql::placeholders(0, n)),
        sql::says(score::tokened_text(n), " AND s.problem_id = "@ + sql::placeholder(n + 1)),
{
    reveal_strlit("SELECT MAX(sj.score) as max_score FROM submission s JOIN submission_judgement sj ON sj.submission_id = s.id AND sj.is_current = TRUE AND sj.is_finalized = TRUE AND sj.judge_epoch = s.judge_epoch WHERE s.id IN (");
    let p0 = "SELECT MAX(sj.score) as max_score FROM submission s JOIN submission_judgement sj ON sj.submission_id = s.id AND sj.is_current = TRUE AND sj.is_finalized = TRUE AND sj.judge_epoch = s.judge_epoch WHERE s.id IN ("@;
    let p1 = sql::placeholders(0, n);
    reveal_strlit(") AND s.problem_id = ");
    let p2 = ") AND s.problem_id = "@;
    let p3 = sql::placeholder(n + 1);
    let all = score::tokened_text(n);
    reveal_strlit("SELECT MAX(sj.score)");
    assert(p0.subrange(0, 20) =~= "SELECT MAX(sj.score)"@);
    assert(text::stands_at(p0, "SELECT MAX(sj.score)"@, 0));
    sql::lemma_says(Seq::<char>::empty(), p0, p1 + p2 + p3, "SELECT MAX(sj.score)"@);
    assert(all =~= Seq::<char>::empty() + p0 + (p1 + p2 + p3));
    reveal_strlit("sj.submission_id = s.id AND sj.is_current = TRUE AND sj.is_finalized = TRUE AND sj.judge_epoch = s.judge_epoch");
    assert(p0.subrange(84, 194) =~= "sj.submission_id = s.id AND sj.is_current = TRUE AND sj.is_finalized = TRUE AND sj.judge_epoch = s.judge_epoch"@);
    assert(text::stands_at(p0, "sj.submission_id = s.id AND sj.is_current = TRUE AND sj.is_finalized = TRUE AND sj.judge_epoch = s.judge_epoch"@, 84));
    sql::lemma_says(Seq::<char>::empty(), p0, p1 + p2 + p3, "sj.submission_id = s.id AND sj.is_current = TRUE AND sj.is_finalized = TRUE AND sj.judge_epoch = s.judge_epoch"@);
    assert(all =~= Seq::<char>::empty() + p0 + (p1 + p2 + p3));
    reveal_strlit("WHERE s.id IN (");
    assert(p0.subrange(195, 210) =~= "WHERE s.id IN ("@);
    assert(text::has_suffix(p0, "WHERE s.id IN ("@));
    sql::lemma_says_joined(Seq::<char>::empty(), p0, p1, p2 + p3, "WHERE s.id IN ("@);
    assert(all =~= Seq::<char>::empty() + p0 + p1 + (p2 + p3));
    reveal_strlit(" AND s.problem_id = ");
    assert(p2.subrange(1, 21) =~= " AND s.problem_id = "@);
    assert(text::has_suffix(p2, " AND s.problem_id = "@));
    sql::lemma_says_joined(p0 + p1, p2, p3, Seq::<char>::empty(), " AND s.problem_id = "@);
    assert(all =~= (p0 + p1) + p2 + p3 + (Seq::<char>::empty()));
}

/// The score of a submission is that of its current final judgement.
pub proof fn the_last_score_is_read()
    ensures
        sql::says(score::last_head(), "COALESCE(sj.score, 0.0) as score"@),
        sql::says(score::last_head(), "sj.submission_id = s.id AND sj.is_current = TRUE AND sj.is_finalized = TRUE AND sj.judge_epoch = s.judge_epoch"@),
{
    reveal_strlit("SELECT s.id, COALESCE(sj.score, 0.0) as score FROM submission s JOIN submission_judgement sj ON sj.submission_id = s.id AND sj.is_current = TRUE AND sj.is_finalized = TRUE AND sj.judge_epoch = s.judge_epoch ");
    let p0 = "SELECT s.id, COALESCE(sj.score, 0.0) as score FROM submission s JOIN submission_judgement sj ON sj.submission_id = s.id AND sj.is_current = TRUE AND sj.is_finalized = TRUE AND sj.judge_epoch = s.judge_epoch "@;
    let all = score::last_head();
    reveal_strlit("COALESCE(sj.score, 0.0) as score");
    assert(p0.subrange(13, 45) =~= "COALESCE(sj.score, 0.0) as score"@);
    assert(text::stands_at(p0, "COALESCE(sj.score, 0.0) as score"@, 13));
    sql::lemma_says(Seq::<char>::empty(), p0, Seq::<char>::empty(), "COALESCE(sj.score, 0.0) as score"@);
    assert(all =~= Seq::<char>::empty() + p0 + (Seq::<char>::empty()));
    reveal_strlit("sj.submission_id = s.id AND sj.is_current = TRUE AND sj.is_finalized = TRUE AND sj.judge_epoch = s.judge_epoch");
    assert(p0.subrange(96, 206) =~= "sj.submission_id = s.id AND sj.is_current = TRUE AND sj.is_finalized = TRUE AND sj.judge_epoch = s.judge_epoch"@);
    assert(text::stands_at(p0, "sj.submission_id = s.id AND sj.is_current = TRUE AND sj.is_finalized = TRUE AND sj.judge_epoch = s.judge_epoch"@, 96));
    sql::lemma_says(Seq::<char>::empty(), p0, Seq::<char>::empty(), "sj.submission_id = s.id AND sj.is_current = TRUE AND sj.is_finalized = TRUE AND sj.judge_epoch = s.judge_epoch"@);
    assert(all =~= Seq::<char>::empty() + p0 + (Seq::<char>::empty()));
}

/// The board reads the scores of the current judgements, with the time since the
/// start of the contest.
pub proof fn the_board_reads_current_judgements()
    ensures
        sql::says(scoreboard::max_head(), "sj.submission_id = s.id AND sj.is_current = TRUE AND sj.judge_epoch = s.judge_epoch"@),
        sql::says(scoreboard::max_head(), "GREATEST(EXTRACT(EPOCH FROM (s.created_at - c.start_time))::bigint, 0) as elapsed_seconds"@),
        sql::says(scoreboard::max_head(), "c.id = s.contest_id"@),
{
    reveal_strlit("WITH scored AS ( SELECT s.user_id, s.problem_id, sj.score as score, GREATEST(EXTRACT(EPOCH FROM (s.created_at - c.start_time))::bigint, 0) as elapsed_seconds FROM submission s JOIN contest c ON c.id = s.contest_id JOIN submission_judgement sj ON sj.submission_id = s.id AND sj.is_current = TRUE AND sj.judge_epoch = s.judge_epoch ");
    let p0 = "WITH scored AS ( SELECT s.user_id, s.problem_id, sj.score as score, GREATEST(EXTRACT(EPOCH FROM (s.created_at - c.start_time))::bigint, 0) as elapsed_seconds FROM submission s JOIN contest c ON c.id = s.contest_id JOIN submission_judgement sj ON sj.submission_id = s.id AND sj.is_current = TRUE AND sj.judge_epoch = s.judge_epoch "@;
    let all = scoreboard::max_head();
    reveal_strlit("sj.submission_id = s.id AND sj.is_current = TRUE AND sj.judge_epoch = s.judge_epoch");
    assert(p0.subrange(246, 329) =~= "sj.submission_id = s.id AND sj.is_current = TRUE AND sj.judge_epoch = s.judge_epoch"@);
    assert(text::stands_at(p0, "sj.submission_id = s.id AND sj.is_current = TRUE AND sj.judge_epoch = s.judge_epoch"@, 246));
    sql::lemma_says(Seq::<char>::empty(), p0, Seq::<char>::empty(), "sj.submission_id = s.id AND sj.is_current = TRUE AND sj.judge_epoch = s.judge_epoch"@);
    assert(all =~= Seq::<char>::empty() + p0 + (Seq::<char>::empty()));
    reveal_strlit("GREATEST(EXTRACT(EPOCH FROM (s.created_at - c.start_time))::bigint, 0) as elapsed_seconds");
    assert(p0.subrange(68, 157) =~= "GREATEST(EXTRACT(EPOCH FROM (s.created_at - c.start_time))::bigint, 0) as elapsed_seconds"@);
    assert(text::stands_at(p0, "GREATEST(EXTRACT(EPOCH FROM (s.created_at - c.start_time))::bigint, 0) as elapsed_seconds"@, 68));
    sql::lemma_says(Seq::<char>::empty(), p0, Seq::<char>::empty(), "GREATEST(EXTRACT(EPOCH FROM (s.created_at - c.start_time))::bigint, 0) as elapsed_seconds"@);
    assert(all =~= Seq::<char>::empty() + p0 + (Seq::<char>::empty()));
    reveal_strlit("c.id = s.contest_id");
    assert(p0.subrange(194, 213) =~= "c.id = s.contest_id"@);
    assert(text::stands_at(p0, "c.id = s.contest_id"@, 194));
    sql::lemma_says(Seq::<char>::empty(), p0, Seq::<char>::empty(), "c.id = s.contest_id"@);
    assert(all =~= Seq::<char>::empty() + p0 + (Seq::<char>::empty()));
}

/// The board takes the largest score of a contestant on a task, and the first time
/// at which it was reached.
pub proof fn the_board_takes_the_largest_score(margin: Seq<char>)
    ensures
        sql::says(scoreboard::max_tail(margin), "sj.score IS NOT NULL"@),
        sql::says(scoreboard::max_tail(margin), "SELECT user_id, problem_id, MAX(score) as score FROM scored GROUP BY user_id, problem_id"@),
        sql::says(scoreboard::max_tail(margin), "MIN(s.elapsed_seconds) FILTER (WHERE m.score > 0.0 AND s.score >= m.score - "@),
        sql::says(scoreboard::max_tail(margin), "s.user_id = m.user_id AND s.problem_id = m.problem_id"@),
{
    reveal_strlit(" AND sj.score IS NOT NULL ), maxes AS ( SELECT user_id, problem_id, MAX(score) as score FROM scored GROUP BY user_id, problem_id ) SELECT m.user_id, m.problem_id, m.score, COALESCE(MIN(s.elapsed_seconds) FILTER (WHERE m.score > 0.0 AND s.score >= m.score - ");
    let p0 = " AND sj.score IS NOT NULL ), maxes AS ( SELECT user_id, problem_id, MAX(score) as score FROM scored GROUP BY user_id, problem_id ) SELECT m.user_id, m.problem_id, m.score, COALESCE(MIN(s.elapsed_seconds) FILTER (WHERE m.score > 0.0 AND s.score >= m.score - "@;
    let p1 = margin;
    reveal_strlit("), 0) as score_time_seconds FROM maxes m JOIN scored s ON s.user_id = m.user_id AND s.problem_id = m.problem_id GROUP BY m.user_id, m.problem_id, m.score");
    let p2 = "), 0) as score_time_seconds FROM maxes m JOIN scored s ON s.user_id = m.user_id AND s.problem_id = m.problem_id GROUP BY m.user_id, m.problem_id, m.score"@;
    let all = scoreboard::max_tail(margin);
    reveal_strlit("sj.score IS NOT NULL");
    assert(p0.subrange(5, 25) =~= "sj.score IS NOT NULL"@);
    assert(text::stands_at(p0, "sj.score IS NOT NULL"@, 5));
    sql::lemma_says(Seq::<char>::empty(), p0, p1 + p2, "sj.score IS NOT NULL"@);
    assert(all =~= Seq::<char>::empty() + p0 + (p1 + p2));
    reveal_strlit("SELECT user_id, problem_id, MAX(score) as score FROM scored GROUP BY user_id, problem_id");
    assert(p0.subrange(40, 128) =~= "SELECT user_id, problem_id, MAX(score) as score FROM scored GROUP BY user_id, problem_id"@);
    assert(text::stands_at(p0, "SELECT user_id, problem_id, MAX(score) as score FROM scored GROUP BY user_id, problem_id"@, 40));
    sql::lemma_says(Seq::<char>::empty(), p0, p1 + p2, "SELECT user_id, problem_id, MAX(score) as score FROM scored GROUP BY user_id, problem_id"@);
    assert(all =~= Seq::<char>::empty() + p0 + (p1 + p2));
    reveal_strlit("MIN(s.elapsed_seconds) FILTER (WHERE m.score > 0.0 AND s.score >= m.score - ");
    assert(p0.subrange(181, 257) =~= "MIN(s.elapsed_seconds) FILTER (WHERE m.score > 0.0 AND s.score >= m.score - "@);
    assert(text::stands_at(p0, "MIN(s.elapsed_seconds) FILTER (WHERE m.score > 0.0 AND s.score >= m.score - "@, 181));
    sql::lemma_says(Seq::<char>::empty(), p0, p1 + p2, "MIN(s.elapsed_seconds) FILTER (WHERE m.score > 0.0 AND s.score >= m.score - "@);
    assert(all =~= Seq::<char>::empty() + p0 + (p1 + p2));
    reveal_strlit("s.user_id = m.user_id AND s.problem_id = m.problem_id");
    assert(p2.subrange(58, 111) =~= "s.user_id = m.user_id AND s.problem_id = m.problem_id"@);
    assert(text::stands_at(p2, "s.user_id = m.user_id AND s.problem_id = m.problem_id"@, 58));
    sql::lemma_says(p0 + p1, p2, Seq::<char>::empty(), "s.user_id = m.user_id AND s.problem_id = m.problem_id"@);
    assert(all =~= (p0 + p1) + p2 + (Seq::<char>::empty()));
}

/// Of each contestant and task one submission is read, with its final judgement.
pub proof fn the_last_of_each_is_read()
    ensures
        sql::says(scoreboard::last_head(), "SELECT DISTINCT ON (s.user_id, s.problem_id)"@),
        sql::says(scoreboard::last_head(), "sj.submission_id = s.id AND sj.is_current = TRUE AND sj.is_finalized = TRUE AND sj.judge_epoch = s.judge_epoch"@),
        sql::says(scoreboard::last_head(), "GREATEST(EXTRACT(EPOCH FROM (s.created_at - c.start_time))::bigint, 0) as elapsed_seconds"@),
{
    reveal_strlit("SELECT DISTINCT ON (s.user_id, s.problem_id) s.user_id, s.problem_id, COALESCE(sj.score, 0.0) as score, GREATEST(EXTRACT(EPOCH FROM (s.created_at - c.start_time))::bigint, 0) as elapsed_seconds FROM submission s JOIN contest c ON c.id = s.contest_id JOIN submission_judgement sj ON sj.submission_id = s.id AND sj.is_current = TRUE AND sj.is_finalized = TRUE AND sj.judge_epoch = s.judge_epoch ");
    let p0 = "SELECT DISTINCT ON (s.user_id, s.problem_id) s.user_id, s.problem_id, COALESCE(sj.score, 0.0) as score, GREATEST(EXTRACT(EPOCH FROM (s.created_at - c.start_time))::bigint, 0) as elapsed_seconds FROM submission s JOIN contest c ON c.id = s.contest_id JOIN submission_judgement sj ON sj.submission_id = s.id AND sj.is_current = TRUE AND sj.is_finalized = TRUE AND sj.judge_epoch = s.judge_epoch "@;
    let all = scoreboard::last_head();
    reveal_strlit("SELECT DISTINCT ON (s.user_id, s.problem_id)");
    assert(p0.subrange(0, 44) =~= "SELECT DISTINCT ON (s.user_id, s.problem_id)"@);
    assert(text::stands_at(p0, "SELECT DISTINCT ON (s.user_id, s.problem_id)"@, 0));
    sql::lemma_says(Seq::<char>::empty(), p0, Seq::<char>::empty(), "SELECT DISTINCT ON (s.user_id, s.problem_id)"@);
    assert(all =~= Seq::<char>::empty() + p0 + (Seq::<char>::empty()));
    reveal_strlit("sj.submission_id = s.id AND sj.is_current = TRUE AND sj.is_finalized = TRUE AND sj.judge_epoch = s.judge_epoch");
    assert(p0.subrange(282, 392) =~= "sj.submission_id = s.id AND sj.is_current = TRUE AND sj.is_finalized = TRUE AND sj.judge_epoch = s.judge_epoch"@);
    assert(text::stands_at(p0, "sj.submission_id = s.id AND sj.is_current = TRUE AND sj.is_finalized = TRUE AND sj.judge_epoch = s.judge_epoch"@, 282));
    sql::lemma_says(Seq::<char>::empty(), p0, Seq::<char>::empty(), "sj.submission_id = s.id AND sj.is_current = TRUE AND sj.is_finalized = TRUE AND sj.judge_epoch = s.judge_epoch"@);
    assert(all =~= Seq::<char>::empty() + p0 + (Seq::<char>::empty()));
    reveal_strlit("GREATEST(EXTRACT(EPOCH FROM (s.created_at - c.start_time))::bigint, 0) as elapsed_seconds");
    assert(p0.subrange(104, 193) =~= "GREATEST(EXTRACT(EPOCH FROM (s.created_at - c.start_time))::bigint, 0) as elapsed_seconds"@);
    assert(text::stands_at(p0, "GREATEST(EXTRACT(EPOCH FROM (s.created_at - c.start_time))::bigint, 0) as elapsed_seconds"@, 104));
    sql::lemma_says(Seq::<char>::empty(), p0, Seq::<char>::empty(), "GREATEST(EXTRACT(EPOCH FROM (s.created_at - c.start_time))::bigint, 0) as elapsed_seconds"@);
    assert(all =~= Seq::<char>::empty() + p0 + (Seq::<char>::empty()));
}

/// The submissions with a token are read with their final judgements.
pub proof fn tokened_submissions_are_read()
    ensures
        sql::says(scoreboard::tokened_head(), "sj.submission_id = s.id AND sj.is_current = TRUE AND sj.is_finalized = TRUE AND sj.judge_epoch = s.judge_epoch"@),
        sql::says(scoreboard::tokened_head(), "GREATEST(EXTRACT(EPOCH FROM (s.created_at - c.start_time))::bigint, 0) as elapsed_seconds"@),
{
    reveal_strlit("SELECT s.user_id, s.problem_id, COALESCE(sj.score, 0.0) as score, GREATEST(EXTRACT(EPOCH FROM (s.created_at - c.start_time))::bigint, 0) as elapsed_seconds FROM submission s JOIN contest c ON c.id = s.contest_id JOIN submission_judgement sj ON sj.submission_id = s.id AND sj.is_current = TRUE AND sj.is_finalized = TRUE AND sj.judge_epoch = s.judge_epoch ");
    let p0 = "SELECT s.user_id, s.problem_id, COALESCE(sj.score, 0.0) as score, GREATEST(EXTRACT(EPOCH FROM (s.created_at - c.start_time))::bigint, 0) as elapsed_seconds FROM submission s JOIN contest c ON c.id = s.contest_id JOIN submission_judgement sj ON sj.submission_id = s.id AND sj.is_current = TRUE AND sj.is_finalized = TRUE AND sj.judge_epoch = s.judge_epoch "@;
    let all = scoreboard::tokened_head();
    reveal_strlit("sj.submission_id = s.id AND sj.is_current = TRUE AND sj.is_finalized = TRUE AND sj.judge_epoch = s.judge_epoch");
    assert(p0.subrange(244, 354) =~= "sj.submission_id = s.id AND sj.is_current = TRUE AND sj.is_finalized = TRUE AND sj.judge_epoch = s.judge_epoch"@);
    assert(text::stands_at(p0, "sj.submission_id = s.id AND sj.is_current = TRUE AND sj.is_finalized = TRUE AND sj.judge_epoch = s.judge_epoch"@, 244));
    sql::lemma_says(Seq::<char>::empty(), p0, Seq::<char>::empty(), "sj.submission_id = s.id AND sj.is_current = TRUE AND sj.is_finalized = TRUE AND sj.judge_epoch = s.judge_epoch"@);
    assert(all =~= Seq::<char>::empty() + p0 + (Seq::<char>::empty()));
    reveal_strlit("GREATEST(EXTRACT(EPOCH FROM (s.created_at - c.start_time))::bigint, 0) as elapsed_seconds");
    assert(p0.subrange(66, 155) =~= "GREATEST(EXTRACT(EPOCH FROM (s.created_at - c.start_time))::bigint, 0) as elapsed_seconds"@);
    assert(text::stands_at(p0, "GREATEST(EXTRACT(EPOCH FROM (s.created_at - c.start_time))::bigint, 0) as elapsed_seconds"@, 66));
    sql::lemma_says(Seq::<char>::empty(), p0, Seq::<char>::empty(), "GREATEST(EXTRACT(EPOCH FROM (s.created_at - c.start_time))::bigint, 0) as elapsed_seconds"@);
    assert(all =~= Seq::<char>::empty() + p0 + (Seq::<char>::empty()));
}

/// The results of cases are read of the judgement that they were stored for.
pub proof fn results_are_read_of_one_judgement()
    ensures
        sql::says(scoreboard::results_head(), "sj.id = tcr.judgement_id AND sj.submission_id = tcr.submission_id AND sj.judge_epoch = tcr.judge_epoch"@),
        sql::says(scoreboard::results_head(), "tcr.submission_id = s.id"@),
        sql::says(scoreboard::results_head(), "GREATEST(EXTRACT(EPOCH FROM (s.created_at - c.start_time))::bigint, 0) as elapsed_seconds"@),
{
    reveal_strlit("SELECT s.user_id, s.problem_id, s.id as submission_id, tcr.test_case_id, tcr.score, tcr.verdict, GREATEST(EXTRACT(EPOCH FROM (s.created_at - c.start_time))::bigint, 0) as elapsed_seconds FROM submission s JOIN contest c ON c.id = s.contest_id JOIN test_case_result tcr ON tcr.submission_id = s.id JOIN submission_judgement sj ON sj.id = tcr.judgement_id AND sj.submission_id = tcr.submission_id AND sj.judge_epoch = tcr.judge_epoch ");
    let p0 = "SELECT s.user_id, s.problem_id, s.id as submission_id, tcr.test_case_id, tcr.score, tcr.verdict, GREATEST(EXTRACT(EPOCH FROM (s.created_at - c.start_time))::bigint, 0) as elapsed_seconds FROM submission s JOIN contest c ON c.id = s.contest_id JOIN test_case_result tcr ON tcr.submission_id = s.id JOIN submission_judgement sj ON sj.id = tcr.judgement_id AND sj.submission_id = tcr.submission_id AND sj.judge_epoch = tcr.judge_epoch "@;
    let all = scoreboard::results_head();
    reveal_strlit("sj.id = tcr.judgement_id AND sj.submission_id = tcr.submission_id AND sj.judge_epoch = tcr.judge_epoch");
    assert(p0.subrange(329, 431) =~= "sj.id = tcr.judgement_id AND sj.submission_id = tcr.submission_id AND sj.judge_epoch = tcr.judge_epoch"@);
    assert(text::stands_at(p0, "sj.id = tcr.judgement_id AND sj.submission_id = tcr.submission_id AND sj.judge_epoch = tcr.judge_epoch"@, 329));
    sql::lemma_says(Seq::<char>::empty(), p0, Seq::<char>::empty(), "sj.id = tcr.judgement_id AND sj.submission_id = tcr.submission_id AND sj.judge_epoch = tcr.judge_epoch"@);
    assert(all =~= Seq::<char>::empty() + p0 + (Seq::<char>::empty()));
    reveal_strlit("tcr.submission_id = s.id");
    assert(p0.subrange(272, 296) =~= "tcr.submission_id = s.id"@);
    assert(text::stands_at(p0, "tcr.submission_id = s.id"@, 272));
    sql::lemma_says(Seq::<char>::empty(), p0, Seq::<char>::empty(), "tcr.submission_id = s.id"@);
    assert(all =~= Seq::<char>::empty() + p0 + (Seq::<char>::empty()));
    reveal_strlit("GREATEST(EXTRACT(EPOCH FROM (s.created_at - c.start_time))::bigint, 0) as elapsed_seconds");
    assert(p0.subrange(97, 186) =~= "GREATEST(EXTRACT(EPOCH FROM (s.created_at - c.start_time))::bigint, 0) as elapsed_seconds"@);
    assert(text::stands_at(p0, "GREATEST(EXTRACT(EPOCH FROM (s.created_at - c.start_time))::bigint, 0) as elapsed_seconds"@, 97));
    sql::lemma_says(Seq::<char>::empty(), p0, Seq::<char>::empty(), "GREATEST(EXTRACT(EPOCH FROM (s.created_at - c.start_time))::bigint, 0) as elapsed_seconds"@);
    assert(all =~= Seq::<char>::empty() + p0 + (Seq::<char>::empty()));
}

/// What decides on feedback is timed by the contest.
pub proof fn feedback_is_timed_by_the_contest(placeholders: Seq<char>)
    ensures
        sql::says(feedback::rows_text(placeholders), "WHEN NOW() < c.start_time THEN 'before'"@),
        sql::says(feedback::rows_text(placeholders), "WHEN NOW() > c.end_time THEN 'after'"@),
        sql::says(feedback::rows_text(placeholders), "ELSE 'during' END AS phase"@),
        sql::says(feedback::rows_text(placeholders), "c.id = s.contest_id"@),
        sql::says(feedback::rows_text(placeholders), "WHERE s.id IN ("@ + placeholders),
{
    reveal_strlit("SELECT s.id AS submission_id, s.user_id, c.contest_type, CASE WHEN NOW() < c.start_time THEN 'before' WHEN NOW() > c.end_time THEN 'after' ELSE 'during' END AS phase FROM submission s JOIN contest c ON c.id = s.contest_id WHERE s.id IN (");
    let p0 = "SELECT s.id AS submission_id, s.user_id, c.contest_type, CASE WHEN NOW() < c.start_time THEN 'before' WHEN NOW() > c.end_time THEN 'after' ELSE 'during' END AS phase FROM submission s JOIN contest c ON c.id = s.contest_id WHERE s.id IN ("@;
    let p1 = placeholders;
    reveal_strlit(")");
    let p2 = ")"@;
    let all = feedback::rows_text(placeholders);
    reveal_strlit("WHEN NOW() < c.start_time THEN 'before'");
    assert(p0.subrange(62, 101) =~= "WHEN NOW() < c.start_time THEN 'before'"@);
    assert(text::stands_at(p0, "WHEN NOW() < c.start_time THEN 'before'"@, 62));
    sql::lemma_says(Seq::<char>::empty(), p0, p1 + p2, "WHEN NOW() < c.start_time THEN 'before'"@);
    assert(all =~= Seq::<char>::empty() + p0 + (p1 + p2));
    reveal_strlit("WHEN NOW() > c.end_time THEN 'after'");
    assert(p0.subrange(102, 138) =~= "WHEN NOW() > c.end_time THEN 'after'"@);
    assert(text::stands_at(p0, "WHEN NOW() > c.end_time THEN 'after'"@, 102));
    sql::lemma_says(Seq::<char>::empty(), p0, p1 + p2, "WHEN NOW() > c.end_time THEN 'after'"@);
    assert(all =~= Seq::<char>::empty() + p0 + (p1 + p2));
    reveal_strlit("ELSE 'during' END AS phase");
    assert(p0.subrange(139, 165) =~= "ELSE 'during' END AS phase"@);
    assert(text::stands_at(p0, "ELSE 'during' END AS phase"@, 139));
    sql::lemma_says(Seq::<char>::empty(), p0, p1 + p2, "ELSE 'during' END AS phase"@);
    assert(all =~= Seq::<char>::empty() + p0 + (p1 + p2));
    reveal_strlit("c.id = s.contest_id");
    assert(p0.subrange(202, 221) =~= "c.id = s.contest_id"@);
    assert(text::stands_at(p0, "c.id = s.contest_id"@, 202));
    sql::lemma_says(Seq::<char>::empty(), p0, p1 + p2, "c.id = s.contest_id"@);
    assert(all =~= Seq::<char>::empty() + p0 + (p1 + p2));
    reveal_strlit("WHERE s.id IN (");
    assert(p0.subrange(222, 237) =~= "WHERE s.id IN ("@);
    assert(text::has_suffix(p0, "WHERE s.id IN ("@));
    sql::lemma_says_joined(Seq::<char>::empty(), p0, p1, p2, "WHERE s.id IN ("@);
    assert(all =~= Seq::<char>::empty() + p0 + p1 + (p2));
}

/// The attempts are those of the contestant, on the problem, in the contest: each
/// condition with its own value.
pub proof fn attempts_are_of_one_contestant()
    ensures
        sql::says(score::attempts_text(), "s.user_id = "@ + sql::placeholder(1)),
        sql::says(score::attempts_text(), "s.problem_id = "@ + sql::placeholder(2)),
        sql::says(score::attempts_text(), "s.contest_id = "@ + sql::placeholder(3)),
{
    reveal_strlit("WHERE s.user_id = ");
    let p0 = "WHERE s.user_id = "@;
    let p1 = sql::placeholder(1);
    reveal_strlit(" AND s.problem_id = ");
    let p2 = " AND s.problem_id = "@;
    let p3 = sql::placeholder(2);
    reveal_strlit(" AND s.contest_id = ");
    let p4 = " AND s.contest_id = "@;
    let p5 = sql::placeholder(3);
    let all = score::attempts_text();
    reveal_strlit("s.user_id = ");
    assert(p0.subrange(6, 18) =~= "s.user_id = "@);
    assert(text::has_suffix(p0, "s.user_id = "@));
    sql::lemma_says_joined(Seq::<char>::empty(), p0, p1, p2 + p3 + p4 + p5, "s.user_id = "@);
    assert(all =~= Seq::<char>::empty() + p0 + p1 + (p2 + p3 + p4 + p5));
    reveal_strlit("s.problem_id = ");
    assert(p2.subrange(5, 20) =~= "s.problem_id = "@);
    assert(text::has_suffix(p2, "s.problem_id = "@));
    sql::lemma_says_joined(p0 + p1, p2, p3, p4 + p5, "s.problem_id = "@);
    assert(all =~= (p0 + p1) + p2 + p3 + (p4 + p5));
    reveal_strlit("s.contest_id = ");
    assert(p4.subrange(5, 20) =~= "s.contest_id = "@);
    assert(text::has_suffix(p4, "s.contest_id = "@));
    sql::lemma_says_joined(p0 + p1 + p2 + p3, p4, p5, Seq::<char>::empty(), "s.contest_id = "@);
    assert(all =~= (p0 + p1 + p2 + p3) + p4 + p5 + (Seq::<char>::empty()));
}

/// The board reads the submissions of the contest, of its contestants, to its tasks.
pub proof fn the_board_reads_its_own_rows(users: nat, problems: nat)
    ensures
        sql::says(scoreboard::board_filter(users, problems), "s.contest_id = "@ + sql::placeholder(1)),
        sql::says(scoreboard::board_filter(users, problems), "s.user_id IN ("@ + sql::placeholders(1, users)),
        sql::says(scoreboard::board_filter(users, problems), "s.problem_id IN ("@ + sql::placeholders(1 + users, problems)),
{
    reveal_strlit("WHERE s.contest_id = ");
    let p0 = "WHERE s.contest_id = "@;
    let p1 = sql::placeholder(1);
    reveal_strlit(" AND s.user_id IN (");
    let p2 = " AND s.user_id IN ("@;
    let p3 = sql::placeholders(1, users);
    reveal_strlit(") AND s.problem_id IN (");
    let p4 = ") AND s.problem_id IN ("@;
    let p5 = sql::placeholders(1 + users, problems);
    reveal_strlit(")");
    let p6 = ")"@;
    let all = scoreboard::board_filter(users, problems);
    reveal_strlit("s.contest_id = ");
    assert(p0.subrange(6, 21) =~= "s.contest_id = "@);
    assert(text::has_suffix(p0, "s.contest_id = "@));
    sql::lemma_says_joined(Seq::<char>::empty(), p0, p1, p2 + p3 + p4 + p5 + p6, "s.contest_id = "@);
    assert(all =~= Seq::<char>::empty() + p0 + p1 + (p2 + p3 + p4 + p5 + p6));
    reveal_strlit("s.user_id IN (");
    assert(p2.subrange(5, 19) =~= "s.user_id IN ("@);
    assert(text::has_suffix(p2, "s.user_id IN ("@));
    sql::lemma_says_joined(p0 + p1, p2, p3, p4 + p5 + p6, "s.user_id IN ("@);
    assert(all =~= (p0 + p1) + p2 + p3 + (p4 + p5 + p6));
    reveal_strlit("s.problem_id IN (");
    assert(p4.subrange(6, 23) =~= "s.problem_id IN ("@);
    assert(text::has_suffix(p4, "s.problem_id IN ("@));
    sql::lemma_says_joined(p0 + p1 + p2 + p3, p4, p5, p6, "s.problem_id IN ("@);
    assert(all =~= (p0 + p1 + p2 + p3) + p4 + p5 + (p6));
}

/// The values are bound in the order of the conditions.
pub proof fn values_follow_their_conditions(
    user_id: i32,
    problem_id: i32,
    contest_id: i32,
    user_ids: Seq<i32>,
    problem_ids: Seq<i32>,
    i: int,
)
    ensures
        score::attempt_args(user_id, problem_id, contest_id).len() == 3,
        score::attempt_args(user_id, problem_id, contest_id)[0] == SqlView::Int(user_id as int),
        score::attempt_args(user_id, problem_id, contest_id)[1] == SqlView::Int(problem_id as int),
        score::attempt_args(user_id, problem_id, contest_id)[2] == SqlView::Int(contest_id as int),
        ({
            let args = scoreboard::board_args(contest_id, user_ids, problem_ids);
            &&& args.len() == 1 + user_ids.len() + problem_ids.len()
            &&& args[0] == SqlView::Int(contest_id as int)
            &&& 0 <= i < user_ids.len() ==> args[1 + i] == SqlView::Int(user_ids[i] as int)
            &&& 0 <= i < problem_ids.len() ==> args[1 + user_ids.len() + i] == SqlView::Int(
                problem_ids[i] as int,
            )
        }),
{
}

/// What is read for the score of a task, by the mode of the contest: the best; the
/// results of all attempts with the points of the cases; or the best with a token,
/// where there is one, and the last.
pub proof fn the_mode_decides_what_is_read(
    plan: OfficialPlan,
    mode: ScoringMode,
    state: TokenState,
    user_id: i32,
    problem_id: i32,
    contest_id: i32,
)
    requires
        score::official_plan_is(plan, mode, state, user_id, problem_id, contest_id),
    ensures
        mode == ScoringMode::MaxSubmission <==> plan is Best,
        mode == ScoringMode::SumBestSubtask <==> plan is SumOfBest,
        mode == ScoringMode::BestTokenedOrLast <==> plan is TokenedOrLast,
        plan matches OfficialPlan::Best(q) ==> sql::arg_views(q.args@) == score::attempt_args(
            user_id,
            problem_id,
            contest_id,
        ),
        plan matches OfficialPlan::TokenedOrLast { tokened, last } ==> {
            &&& sql::arg_views(last.args@) == score::attempt_args(user_id, problem_id, contest_id)
            &&& text::has_suffix(last.sql@, " ORDER BY s.created_at DESC, s.id DESC LIMIT 1"@)
            &&& tokened is Some <==> state.tokened_submission_ids@.len() > 0
            &&& tokened matches Some(q) ==> sql::arg_views(q.args@).len()
                == state.tokened_submission_ids@.len() + 1 && sql::arg_views(q.args@).last()
                == SqlView::Int(problem_id as int)
        },
{
    if plan is TokenedOrLast {
        let last = plan->last;
        let end = " ORDER BY s.created_at DESC, s.id DESC LIMIT 1"@;
        let all = last.sql@;
        assert(all.subrange(all.len() - end.len(), all.len() as int) =~= end);
    }
}

} // verus!
