//! Requests, jobs, and how many pages a document takes.

use vstd::prelude::*;

use crate::letters::letters;
use crate::text::chars_of;
use crate::letters;

verus! {

/// Columns of a printed line.
pub const WRAP_COLS: usize = 90;

pub const LINES_PER_PAGE: usize = 54;

/// The longest document that is taken.
pub const MAX_SOURCE_CHARS: usize = 1_000_000;

/// How many times `d` goes into `n`, rounded up.
pub open spec fn ceil_div(n: nat, d: nat) -> nat {
    if d == 0 {
        0
    } else {
        ((n + d - 1) / (d as int)) as nat
    }
}

pub open spec fn at_least_one(n: nat) -> nat {
    if n == 0 {
        1
    } else {
        n
    }
}

/// The printed lines that a line of this width takes; an empty one takes one.
pub open spec fn rows_of_width(width: nat, cols: nat) -> nat {
    if width == 0 {
        1
    } else {
        ceil_div(width, cols)
    }
}

/// The width of the last line.
pub open spec fn last_width(source: Seq<char>) -> nat
    decreases source.len(),
{
    if source.len() == 0 || source.last() == '\n' {
        0
    } else {
        last_width(source.drop_last()) + 1
    }
}

/// The printed lines of all lines but the last.
pub open spec fn closed_rows(source: Seq<char>, cols: nat) -> nat
    decreases source.len(),
{
    if source.len() == 0 {
        0
    } else if source.last() == '\n' {
        closed_rows(source.drop_last(), cols) + rows_of_width(
            last_width(source.drop_last()),
            cols,
        )
    } else {
        closed_rows(source.drop_last(), cols)
    }
}

/// The printed lines of a document. Lines end at line feeds; what follows the
/// last one is a line of its own.
pub open spec fn total_rows(source: Seq<char>, cols: nat) -> nat {
    closed_rows(source, cols) + rows_of_width(last_width(source), cols)
}

/// The pages of a document.
pub open spec fn page_count(source: Seq<char>, cols: nat, lines_per_page: nat) -> nat {
    ceil_div(total_rows(source, at_least_one(cols)), at_least_one(lines_per_page))
}

proof fn lemma_rows_bound(width: nat, cols: nat)
    requires
        cols > 0,
    ensures
        1 <= rows_of_width(width, cols) <= width + 1,
        width > 0 ==> rows_of_width(width, cols) <= width,
{
    if width > 0 {
        assert((width + cols - 1) / (cols as int) <= width) by (nonlinear_arith)
            requires
                cols > 0,
                width > 0,
        ;
        assert((width + cols - 1) / (cols as int) >= 1) by (nonlinear_arith)
            requires
                cols > 0,
                width > 0,
        ;
    }
}

fn div_up(n: u128, d: u128) -> (r: u128)
    requires
        0 < d <= u64::MAX,
        n <= 0x1_0000_0000_0000_0000_0000,
    ensures
        r == ceil_div(n as nat, d as nat),
{
    (n + d - 1) / d
}

pub fn estimate_pages(source: &str) -> (r: i32)
    ensures
        r == page_count(source@, WRAP_COLS as nat, LINES_PER_PAGE as nat) as i32,
{
    estimate_pages_with(source, WRAP_COLS, LINES_PER_PAGE)
}

/// The pages of a document with this many columns to a line and lines to a
/// page, as a 32-bit number.
pub fn estimate_pages_with(source: &str, cols: usize, lines_per_page: usize) -> (r: i32)
    ensures
        r == page_count(source@, cols as nat, lines_per_page as nat) as i32,
{
    let cols: u128 = if cols == 0 {
        1
    } else {
        cols as u128
    };
    let lines: u128 = if lines_per_page == 0 {
        1
    } else {
        lines_per_page as u128
    };
    let chars = chars_of(source);
    let n: usize = chars.len();
    let mut rows: u128 = 0;
    let mut width: u128 = 0;
    let mut i: usize = 0;
    while i < n
        invariant
            i <= n == chars@.len(),
            0 < cols <= u64::MAX,
            rows == closed_rows(chars@.take(i as int), cols as nat),
            width == last_width(chars@.take(i as int)),
            rows + width <= 2 * i,
        decreases n - i,
    {
        assert(chars@.take(i as int + 1).drop_last() =~= chars@.take(i as int));
        assert(chars@.take(i as int + 1).last() == chars@[i as int]);
        if chars[i] == '\n' {
            proof {
                lemma_rows_bound(width as nat, cols as nat);
            }
            let here: u128 = if width == 0 {
                1
            } else {
                div_up(width, cols)
            };
            rows = rows + here;
            width = 0;
        } else {
            width = width + 1;
        }
        i += 1;
    }
    assert(chars@.take(i as int) =~= chars@);
    proof {
        lemma_rows_bound(width as nat, cols as nat);
    }
    let last: u128 = if width == 0 {
        1
    } else {
        div_up(width, cols)
    };
    let pages: u128 = div_up(rows + last, lines);
    #[verifier::truncate]
    (pages as i32)
}

/// Every document takes a page at least, and no more pages than characters,
/// but one.
pub proof fn pages_are_bounded(source: Seq<char>, cols: nat, lines_per_page: nat)
    ensures
        1 <= page_count(source, cols, lines_per_page) <= source.len() + 1,
{
    let c = at_least_one(cols);
    let l = at_least_one(lines_per_page);
    lemma_total_bound(source, c);
    let rows = total_rows(source, c);
    assert((rows + l - 1) / (l as int) >= 1) by (nonlinear_arith)
        requires
            l > 0,
            rows > 0,
    ;
    assert((rows + l - 1) / (l as int) <= rows) by (nonlinear_arith)
        requires
            l > 0,
            rows > 0,
    ;
}

proof fn lemma_total_bound(source: Seq<char>, cols: nat)
    requires
        cols > 0,
    ensures
        closed_rows(source, cols) + last_width(source) <= source.len(),
        1 <= total_rows(source, cols) <= source.len() + 1,
    decreases source.len(),
{
    lemma_rows_bound(last_width(source), cols);
    if source.len() > 0 {
        lemma_total_bound(source.drop_last(), cols);
        lemma_rows_bound(last_width(source.drop_last()), cols);
    }
}

/// The letters of a problem without a label. Positions start at zero.
pub fn problem_letter(position: i32) -> (r: String)
    ensures
        r@ == letters::letters_of(
            if position < 0 {
                0
            } else {
                position as nat
            },
        ),
{
    if position < 0 {
        letters(0)
    } else {
        letters(position as u64)
    }
}

#[derive(Debug, Clone, PartialEq, Eq)]
pub struct ArbitraryJobRequest {
    pub contest_id: Option<i32>,
    /// The problem that the code was written for. With the contest it labels
    /// the printout.
    pub problem_id: Option<i32>,
    pub filename: String,
    pub language: Option<String>,
    pub source: String,
}

#[derive(Debug, Clone, PartialEq, Eq)]
pub struct HeartbeatRequest {
    pub station: String,
    pub printers: Vec<String>,
    pub location: Option<String>,
    pub version: Option<String>,
    pub queue_seen: Option<i32>,
}

#[derive(Debug, Clone, PartialEq, Eq)]
pub struct ClaimRequest {
    pub station: String,
    pub printer: Option<String>,
}

#[derive(Debug, Clone, PartialEq, Eq)]
pub struct StatusRequest {
    pub status: String,
    pub pages: Option<i32>,
    pub error: Option<String>,
}

} // verus!
