//! A code listing, laid out in pages, with the texts around it.

use vstd::prelude::*;

use crate::client::highlight::highlight;
use crate::client::layout::{paginate, wrap, VisualLine};
use crate::text::{concat, concat3, decimal, decimal_i64, str_eq, to_ascii_lower, trim};
use crate::client::layout;
use crate::client::highlight;
use crate::text;

verus! {

/// What the head and the foot of each page say.
#[derive(Debug, Clone, PartialEq, Eq)]
pub struct DocMeta {
    pub banner: String,
    pub problem_label: Option<String>,
    pub who: String,
    pub filename: String,
    pub when: String,
    pub job_id: i64,
}

/// A rendered document.
#[derive(Debug, Clone, PartialEq, Eq)]
pub struct Rendered {
    pub bytes: Vec<u8>,
    pub pages: usize,
}

/// A paper size.
#[derive(Debug, Clone, Copy, PartialEq, Eq, Structural)]
pub enum Paper {
    A4,
    Letter,
    Legal,
}

/// The paper of a name, in any case; A4 where the name is unknown.
pub open spec fn paper_of(name: Seq<char>) -> Paper {
    if text::ascii_lower_all(name) == "letter"@ {
        Paper::Letter
    } else if text::ascii_lower_all(name) == "legal"@ {
        Paper::Legal
    } else {
        Paper::A4
    }
}

pub fn paper(name: &str) -> (r: Paper)
    ensures
        r == paper_of(name@),
{
    let lower = to_ascii_lower(name);
    if str_eq(lower.as_str(), "letter") {
        Paper::Letter
    } else if str_eq(lower.as_str(), "legal") {
        Paper::Legal
    } else {
        Paper::A4
    }
}

/// What stands in the middle of the head.
pub open spec fn head_text(meta: DocMeta) -> Seq<char> {
    match meta.problem_label {
        Some(l) => if l@.len() > 0 {
            l@ + "  \u{b7}  "@ + meta.filename@
        } else {
            meta.filename@
        },
        None => meta.filename@,
    }
}

pub fn header_center(meta: &DocMeta) -> (r: String)
    ensures
        r@ == head_text(*meta),
{
    match &meta.problem_label {
        Some(l) => if !l.as_str().is_empty() {
            concat3(l.as_str(), "  \u{b7}  ", meta.filename.as_str())
        } else {
            meta.filename.as_str().to_owned()
        },
        None => meta.filename.as_str().to_owned(),
    }
}

/// What stands in the middle of the foot.
pub fn footer_center(meta: &DocMeta) -> (r: String)
    ensures
        r@ == "#"@ + text::decimal_int(meta.job_id as int) + "  \u{b7}  "@ + meta.when@,
{
    let number = decimal_i64(meta.job_id);
    let start = concat3("#", number.as_str(), "  \u{b7}  ");
    concat(start.as_str(), meta.when.as_str())
}

/// What stands at the right of the foot of page `page`.
pub fn footer_right(page: usize, total: usize) -> (r: String)
    ensures
        r@ == "page "@ + text::decimal_digits(page as nat) + " of "@ + text::decimal_digits(total as nat),
{
    let p = decimal(page as u64);
    let n = decimal(total as u64);
    let start = concat3("page ", p.as_str(), " of ");
    concat(start.as_str(), n.as_str())
}

/// The title of the document.
pub fn title(meta: &DocMeta) -> (r: String)
    ensures
        r@ == "print-"@ + text::decimal_int(meta.job_id as int),
{
    let number = decimal_i64(meta.job_id);
    concat("print-", number.as_str())
}

/// The line number beside a row; none beside a continuation.
pub fn gutter(row: &VisualLine) -> (r: Option<String>)
    ensures
        match row.number {
            Some(n) => r matches Some(t) && t@ == text::decimal_digits(n as nat),
            None => r is None,
        },
{
    match row.number {
        Some(n) => Some(decimal(n as u64)),
        None => None,
    }
}

/// Whether a text leaves marks on paper.
pub fn leaves_marks(text: &str) -> (r: bool)
    ensures
        r == (text::trim_spec(text@).len() > 0),
{
    let t = trim(text);
    !t.as_str().is_empty()
}

/// Lays a source text out in pages. Every character of it is printed, in order,
/// and nothing else is.
pub fn layout_document(source: &str, language: &str, max_cols: usize, lines_per_page: usize) -> (r:
    Vec<Vec<VisualLine>>)
    ensures
        layout::row_views(layout::all_rows(r@))
            == layout::wrapped(highlight::highlighted(source@, language@), max_cols as nat),
        layout::paged(
            r@,
            layout::all_rows(r@),
            if lines_per_page == 0 {
                1
            } else {
                lines_per_page as nat
            },
        ),
        layout::plain_text(layout::printed(layout::row_views(layout::all_rows(r@))))
            == highlight::concatenated(highlight::source_lines(source@)),
{
    let lines = highlight(source, language);
    proof {
        what_is_shown_is_printed(
            layout::line_views(lines@),
            highlight::source_lines(source@),
            max_cols as nat,
        );
    }
    let rows = wrap(&lines, max_cols);
    paginate(rows, lines_per_page)
}

/// Every character of the lines is printed, in order, and nothing else is,
/// however they are colored and wrapped.
pub proof fn what_is_shown_is_printed(
    shown: Seq<Seq<(Seq<char>, (u8, u8, u8))>>,
    lines: Seq<Seq<char>>,
    max_cols: nat,
)
    requires
        highlight::spell_lines(shown, lines),
    ensures
        layout::plain_text(layout::printed(layout::wrapped(shown, max_cols)))
            == highlight::concatenated(lines),
{
    layout::the_whole_document_is_printed(shown, max_cols);
    lemma_written_text(shown, lines);
}

proof fn lemma_written_text(shown: Seq<Seq<(Seq<char>, (u8, u8, u8))>>, lines: Seq<Seq<char>>)
    requires
        highlight::spell_lines(shown, lines),
    ensures
        layout::plain_text(layout::written(shown)) == highlight::concatenated(lines),
    decreases lines.len(),
{
    if lines.len() == 0 {
        assert(layout::plain_text(layout::written(shown)) =~= highlight::concatenated(lines));
    } else {
        let n = lines.len() - 1;
        assert forall|i: int| 0 <= i < n implies layout::plain_text(
            layout::run_cells(#[trigger] shown.drop_last()[i]),
        ) == lines.drop_last()[i] by {
            assert(shown.drop_last()[i] == shown[i]);
        }
        lemma_written_text(shown.drop_last(), lines.drop_last());
        assert(layout::plain_text(layout::run_cells(shown[n])) == lines[n]);
        assert(layout::plain_text(layout::written(shown))
            =~= layout::plain_text(layout::written(shown.drop_last())) + layout::plain_text(
            layout::run_cells(shown.last()),
        ));
    }
}

} // verus!
