//! The routes of an ICPC contest.

use vstd::prelude::*;

use crate::icpc::board::{
    build_board, freeze_possible, is_revealed, participants_query, problem_labels,
    standings_scope, submissions_query, Board, ContestProblem, Participant, Scope, Viewing,
};
use crate::icpc::config::ContestConfig;
use crate::icpc::standings::StandingsSubmission;
use crate::sql::Query;
use crate::text::{concat, decimal_i64};
use crate::icpc::board;
use crate::icpc::config;
use crate::icpc::standings;
use crate::text;

verus! {

/// The name under which it is kept that a board has been revealed.
pub fn reveal_key(contest_id: i32) -> (r: String)
    ensures
        r@ == "reveal:"@ + text::decimal_int(contest_id as int),
{
    concat("reveal:", decimal_i64(contest_id as i64).as_str())
}

/// Who asks for the standings, and what was read for them.
#[derive(Debug, PartialEq, Eq)]
pub struct StandingsRequest {
    pub phase: String,
    /// Whether the viewer manages the contest.
    pub can_view_all: bool,
    pub user_id: Option<i32>,
    /// What is kept under the contest's reveal key.
    pub reveal_flag: Option<String>,
    /// The contest's duration and the time elapsed, in milliseconds.
    pub times: (i64, i64),
}

impl StandingsRequest {
    pub open spec fn scope(self, config: ContestConfig) -> Scope {
        board::scope_of(
            self.phase@,
            self.can_view_all,
            config.public_standings,
            self.user_id,
        )
    }

    pub open spec fn revealed(self) -> bool {
        self.reveal_flag matches Some(f) && f@ == "1"@
    }

    /// Whether the contest's times are looked at.
    pub open spec fn timed(self, config: ContestConfig) -> bool {
        config.freeze_minutes > 0 && !self.revealed() && config::freezing_phase(self.phase@)
    }

    /// Who looks at the board, and when.
    pub open spec fn viewing(self, config: ContestConfig) -> Viewing {
        Viewing {
            can_view_all: self.can_view_all,
            revealed: self.revealed(),
            duration_ms: if self.timed(config) {
                self.times.0
            } else {
                0
            },
            now_elapsed_ms: if self.timed(config) {
                self.times.1
            } else {
                0
            },
            own_user_id: self.user_id,
            restricted: self.scope(config) is Own,
        }
    }
}

/// The standings of a contest.
#[derive(Debug)]
pub enum Standings {
    /// The viewer may see no row.
    Empty { labels: Vec<String> },
    Board { revealed: bool, board: Board },
}

/// The reads for a request: the contestants, and the submissions. Who sees only
/// the own row gets nothing else read; who sees no row gets nothing read at all.
pub fn standings_reads(req: &StandingsRequest, config: &ContestConfig, contest_id: i32) -> (r:
    Option<(Query, Query)>)
    ensures
        match req.scope(*config) {
            Scope::Nobody => r is None,
            Scope::Own(user) => r matches Some(reads) && board::participants_query_is(
                reads.0,
                contest_id,
                Some(user),
            ) && board::submissions_query_is(reads.1, contest_id, Some(user)),
            Scope::All => r matches Some(reads) && board::participants_query_is(
                reads.0,
                contest_id,
                None,
            ) && board::submissions_query_is(reads.1, contest_id, None),
        },
{
    let only_user = match standings_scope(
        req.phase.as_str(),
        req.can_view_all,
        config.public_standings,
        req.user_id,
    ) {
        Scope::Nobody => {
            return None;
        },
        Scope::Own(user) => Some(user),
        Scope::All => None,
    };
    Some((participants_query(contest_id, only_user), submissions_query(contest_id, only_user)))
}

/// Answers a request for the standings. The participants and the submissions
/// are what its reads gave.
pub fn handle_standings(
    req: &StandingsRequest,
    config: &ContestConfig,
    problems: &Vec<ContestProblem>,
    participants: &Vec<Participant>,
    submissions: Vec<StandingsSubmission>,
) -> (r: Standings)
    requires
        config::window_fits(
            config.freeze_minutes as int,
            req.viewing(*config).duration_ms as int,
        ),
        standings::pairs_fit(submissions@),
    ensures
        if req.scope(*config) is Nobody {
            r matches Standings::Empty { labels } && text::views(labels@) == board::labels_of(
                problems@,
            )
        } else {
            r matches Standings::Board { revealed, board } && {
                &&& revealed == req.revealed()
                &&& board::board_is(
                    board,
                    *config,
                    req.phase@,
                    req.viewing(*config),
                    problems@,
                    participants@,
                    submissions@,
                )
            }
        },
{
    let scope = standings_scope(
        req.phase.as_str(),
        req.can_view_all,
        config.public_standings,
        req.user_id,
    );
    let restricted = match scope {
        Scope::All => false,
        Scope::Own(_) => true,
        Scope::Nobody => {
            return Standings::Empty { labels: problem_labels(problems) };
        },
    };
    let revealed = is_revealed(&req.reveal_flag);
    let times: (i64, i64) = if freeze_possible(
        config.freeze_minutes,
        revealed,
        req.phase.as_str(),
    ) {
        req.times
    } else {
        (0, 0)
    };
    let viewing = Viewing {
        can_view_all: req.can_view_all,
        revealed,
        duration_ms: times.0,
        now_elapsed_ms: times.1,
        own_user_id: req.user_id,
        restricted,
    };
    let board = build_board(
        config,
        req.phase.as_str(),
        viewing,
        problems,
        participants,
        submissions,
    );
    Standings::Board { revealed, board }
}

/// Until the contest ends, and unless the standings are public, a contestant
/// sees the own row alone, and no first solve on it.
pub proof fn private_standings_show_the_own_row(
    req: StandingsRequest,
    config: ContestConfig,
    board: Board,
    problems: Seq<ContestProblem>,
    participants: Seq<Participant>,
    subs: Seq<StandingsSubmission>,
    k: int,
)
    requires
        req.scope(config) is Own,
        forall|i: int|
            0 <= i < participants.len() ==> Some((#[trigger] participants[i]).user_id)
                == req.user_id,
        board::board_is(
            board,
            config,
            req.phase@,
            req.viewing(config),
            problems,
            participants,
            subs,
        ),
        0 <= k < board.rows@.len(),
    ensures
        Some(board.rows@[k].user_id) == req.user_id,
        forall|label: Seq<char>| #[trigger]
            board.rows@[k].problems@.contains_key(label)
                ==> board.rows@[k].problems@[label].first_solve is None,
{
    crate::icpc::board::restricted_boards_show_no_more(
        board,
        config,
        req.phase@,
        req.viewing(config),
        problems,
        participants,
        subs,
        req.user_id->0,
        k,
    );
}

/// An organizer's board is never frozen, nor is one that has been revealed.
pub proof fn organizers_and_revealed_boards_are_live(req: StandingsRequest, config: ContestConfig)
    requires
        req.can_view_all || req.revealed(),
    ensures
        ({
            let v = req.viewing(config);
            let view = config::view_of(
                config.freeze_minutes as int,
                req.phase@,
                v.can_view_all,
                v.revealed,
                v.duration_ms as int,
                v.now_elapsed_ms as int,
            );
            !view.frozen && view.freeze_start_ms == i64::MAX
        }),
{
}

} // verus!
