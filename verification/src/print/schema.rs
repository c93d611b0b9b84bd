//! The tables of the print queue.

use vstd::prelude::*;

verus! {

/// The statements that create the tables, where they do not exist.
pub const STATEMENTS: [&'static str; 4] = [
    "\n    CREATE TABLE IF NOT EXISTS print_job (\n        id              BIGSERIAL PRIMARY KEY,\n        contest_id      INTEGER,\n        user_id         INTEGER NOT NULL,\n        username        TEXT    NOT NULL,\n        display_name    TEXT,\n        problem_label   TEXT,\n        submission_id   INTEGER,\n        language        TEXT    NOT NULL DEFAULT 'text',\n        filename        TEXT    NOT NULL,\n        source          TEXT    NOT NULL,\n        pages_est       INTEGER,\n        location        TEXT,\n        target_printer  TEXT,\n        status          TEXT    NOT NULL DEFAULT 'pending',\n        claimed_by      TEXT,\n        claimed_printer TEXT,\n        pages           INTEGER,\n        error           TEXT,\n        created_at      TIMESTAMPTZ NOT NULL DEFAULT NOW(),\n        claimed_at      TIMESTAMPTZ,\n        printed_at      TIMESTAMPTZ\n    )\n    ",
    "CREATE INDEX IF NOT EXISTS print_job_claimable_idx ON print_job (status, contest_id, created_at)",
    "CREATE INDEX IF NOT EXISTS print_job_user_idx ON print_job (user_id, created_at)",
    "\n    CREATE TABLE IF NOT EXISTS print_station (\n        name        TEXT PRIMARY KEY,\n        location    TEXT,\n        printers    JSONB NOT NULL DEFAULT '[]'::jsonb,\n        version     TEXT,\n        queue_seen  INTEGER,\n        last_seen   TIMESTAMPTZ NOT NULL DEFAULT NOW()\n    )\n    ",
];

} // verus!
