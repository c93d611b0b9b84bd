//! Colored lines, wrapped into rows of a fixed width and then into pages.

use vstd::prelude::*;

use crate::client::width::char_cols;
use crate::text::chars_of;
use crate::client::width;
use crate::print::models;

verus! {

/// A run of text in one color.
#[derive(Debug, PartialEq, Eq)]
pub struct Span {
    pub text: String,
    pub color: (u8, u8, u8),
}

/// A row. The first row of a source line bears its number.
#[derive(Debug, PartialEq, Eq)]
pub struct VisualLine {
    pub number: Option<usize>,
    pub spans: Vec<Span>,
}

// ---------------------------------------------------------------------------
// Colored characters
// ---------------------------------------------------------------------------

/// The characters of a run, each with its color.
pub open spec fn colored(r: (Seq<char>, (u8, u8, u8))) -> Seq<(char, (u8, u8, u8))> {
    r.0.map_values(|c: char| (c, r.1))
}

/// The characters of some runs.
pub open spec fn run_cells(r: Seq<(Seq<char>, (u8, u8, u8))>) -> Seq<(char, (u8, u8, u8))>
    decreases r.len(),
{
    if r.len() == 0 {
        seq![]
    } else {
        run_cells(r.drop_last()) + colored(r.last())
    }
}

/// The characters of runs, without their colors.
pub open spec fn plain_text(cells: Seq<(char, (u8, u8, u8))>) -> Seq<char> {
    cells.map_values(|c: (char, (u8, u8, u8))| c.0)
}

/// Characters gathered into runs of one color.
pub open spec fn runs(cells: Seq<(char, (u8, u8, u8))>) -> Seq<(Seq<char>, (u8, u8, u8))>
    decreases cells.len(),
{
    if cells.len() == 0 {
        seq![]
    } else {
        let before = runs(cells.drop_last());
        let (c, color) = cells.last();
        if before.len() > 0 && before.last().1 == color {
            before.update(before.len() - 1, (before.last().0.push(c), color))
        } else {
            before.push((seq![c], color))
        }
    }
}

pub open spec fn span_views(spans: Seq<Span>) -> Seq<(Seq<char>, (u8, u8, u8))> {
    spans.map_values(|s: Span| (s.text@, s.color))
}

/// The lines of a document, by their content.
pub open spec fn line_views(lines: Seq<Vec<Span>>) -> Seq<Seq<(Seq<char>, (u8, u8, u8))>> {
    lines.map_values(|l: Vec<Span>| span_views(l@))
}

/// Gathers characters into runs of one color.
struct RowBuilder {
    spans: Vec<Span>,
}

impl RowBuilder {
    fn push(&mut self, ch: char, color: (u8, u8, u8), Ghost(cells): Ghost<
        Seq<(char, (u8, u8, u8))>,
    >)
        requires
            span_views(old(self).spans@) == runs(cells),
        ensures
            span_views(final(self).spans@) == runs(cells.push((ch, color))),
    {
        let ghost before = self.spans@;
        proof {
            assert(cells.push((ch, color)).drop_last() =~= cells);
            assert(runs(cells).len() == before.len());
        }
        let n: usize = self.spans.len();
        if n > 0 {
            let last = &self.spans[n - 1];
            if last.color.0 == color.0 && last.color.1 == color.1 && last.color.2 == color.2 {
                match self.spans.pop() {
                    Some(mut span) => {
                        let ghost old_text = span.text@;
                        span.text.push(ch);
                        self.spans.push(span);
                        proof {
                            assert(runs(cells).last() == (old_text, color));
                            assert(span_views(self.spans@) =~= runs(cells).update(
                                runs(cells).len() - 1,
                                (old_text.push(ch), color),
                            ));
                        }
                    },
                    None => {},
                }
                return;
            }
        }
        let mut text = String::new();
        text.push(ch);
        self.spans.push(Span { text, color });
        proof {
            if n > 0 {
                assert(runs(cells).last().1 == before[n - 1].color);
            }
            assert(self.spans@.last().text@ =~= seq![ch]);
            assert(span_views(self.spans@) =~= runs(cells).push((seq![ch], color)));
        }
    }

    fn take(&mut self) -> (r: Vec<Span>)
        ensures
            r@ == old(self).spans@,
            final(self).spans@.len() == 0,
    {
        let mut out: Vec<Span> = Vec::new();
        std::mem::swap(&mut out, &mut self.spans);
        out
    }
}

// ---------------------------------------------------------------------------
// Wrapping
// ---------------------------------------------------------------------------

/// A line while it is wrapped: the full rows, the row at hand and its columns.
pub struct Wrapping {
    pub done: Seq<Seq<(char, (u8, u8, u8))>>,
    pub cur: Seq<(char, (u8, u8, u8))>,
    pub col: nat,
}

/// A row is broken before a character that would overflow it. A character that
/// is wider than a row stands alone.
pub open spec fn wrapping(cells: Seq<(char, (u8, u8, u8))>, max: nat) -> Wrapping
    decreases cells.len(),
{
    if cells.len() == 0 {
        Wrapping { done: seq![], cur: seq![], col: 0 }
    } else {
        let s = wrapping(cells.drop_last(), max);
        let w = width::cols_of(cells.last().0);
        if s.col > 0 && s.col + w > max {
            Wrapping { done: s.done.push(s.cur), cur: seq![cells.last()], col: w }
        } else {
            Wrapping { done: s.done, cur: s.cur.push(cells.last()), col: s.col + w }
        }
    }
}

/// The rows of a line; an empty line takes one.
pub open spec fn line_rows(cells: Seq<(char, (u8, u8, u8))>, max: nat) -> Seq<
    Seq<(char, (u8, u8, u8))>,
> {
    let s = wrapping(cells, max);
    if s.done.len() == 0 || s.cur.len() > 0 {
        s.done.push(s.cur)
    } else {
        s.done
    }
}

/// A row, by its content.
pub struct RowView {
    pub number: Option<int>,
    pub runs: Seq<(Seq<char>, (u8, u8, u8))>,
}

pub open spec fn row_views(rows: Seq<VisualLine>) -> Seq<RowView> {
    rows.map_values(
        |r: VisualLine|
            RowView {
                number: match r.number {
                    Some(n) => Some(n as int),
                    None => None,
                },
                runs: span_views(r.spans@),
            },
    )
}

/// The rows of line `line`, counted from zero.
pub open spec fn numbered(rows: Seq<Seq<(char, (u8, u8, u8))>>, line: int) -> Seq<RowView> {
    Seq::new(
        rows.len(),
        |k: int|
            RowView {
                number: if k == 0 {
                    Some(line + 1)
                } else {
                    None
                },
                runs: runs(rows[k]),
            },
    )
}

pub open spec fn document_rows(
    lines: Seq<Seq<(Seq<char>, (u8, u8, u8))>>,
    max: nat,
) -> Seq<RowView>
    decreases lines.len(),
{
    if lines.len() == 0 {
        seq![]
    } else {
        document_rows(lines.drop_last(), max) + numbered(
            line_rows(run_cells(lines.last()), max),
            lines.len() - 1,
        )
    }
}

/// The rows of a document; an empty one takes one row.
pub open spec fn wrapped(
    lines: Seq<Seq<(Seq<char>, (u8, u8, u8))>>,
    max_cols: nat,
) -> Seq<RowView> {
    let max = if max_cols == 0 {
        1
    } else {
        max_cols
    };
    if lines.len() == 0 {
        seq![RowView { number: Some(1), runs: seq![] }]
    } else {
        document_rows(lines, max)
    }
}

proof fn lemma_row_views_push(rows: Seq<VisualLine>, r: VisualLine)
    ensures
        row_views(rows.push(r)) == row_views(rows).push(
            RowView {
                number: match r.number {
                    Some(n) => Some(n as int),
                    None => None,
                },
                runs: span_views(r.spans@),
            },
        ),
{
    assert(row_views(rows.push(r)) =~= row_views(rows).push(
        RowView {
            number: match r.number {
                Some(n) => Some(n as int),
                None => None,
            },
            runs: span_views(r.spans@),
        },
    ));
}

proof fn lemma_numbered_push(
    rows: Seq<Seq<(char, (u8, u8, u8))>>,
    cur: Seq<(char, (u8, u8, u8))>,
    line: int,
)
    ensures
        numbered(rows.push(cur), line) == numbered(rows, line).push(
            RowView {
                number: if rows.len() == 0 {
                    Some(line + 1)
                } else {
                    None
                },
                runs: runs(cur),
            },
        ),
{
    assert(numbered(rows.push(cur), line) =~= numbered(rows, line).push(
        RowView {
            number: if rows.len() == 0 {
                Some(line + 1)
            } else {
                None
            },
            runs: runs(cur),
        },
    ));
}

/// Wraps one line and adds its rows to `out`.
fn wrap_line(out: &mut Vec<VisualLine>, line: &Vec<Span>, index: usize, max_cols: usize)
    requires
        max_cols > 0,
        index < usize::MAX,
    ensures
        row_views(final(out)@) == row_views(old(out)@) + numbered(
            line_rows(run_cells(span_views(line@)), max_cols as nat),
            index as int,
        ),
{
    let ghost start = row_views(out@);
    let ghost max = max_cols as nat;
    let mut builder = RowBuilder { spans: Vec::new() };
    let mut col: u128 = 0;
    let mut first = true;
    let ghost mut cells: Seq<(char, (u8, u8, u8))> = Seq::empty();
    let mut s: usize = 0;
    proof {
        assert(span_views(line@).take(0) =~= Seq::<(Seq<char>, (u8, u8, u8))>::empty());
        assert(span_views(builder.spans@) =~= runs(seq![]));
        assert(numbered(wrapping(cells, max).done, index as int) =~= Seq::<RowView>::empty());
        assert(start + numbered(wrapping(cells, max).done, index as int) =~= start);
    }
    while s < line.len()
        invariant
            s <= line@.len(),
            max == max_cols as nat,
            max_cols > 0,
            index < usize::MAX,
            cells == run_cells(span_views(line@).take(s as int)),
            row_views(out@) == start + numbered(wrapping(cells, max).done, index as int),
            span_views(builder.spans@) == runs(wrapping(cells, max).cur),
            col == wrapping(cells, max).col,
            col <= usize::MAX,
            first == (wrapping(cells, max).done.len() == 0),
        decreases line@.len() - s,
    {
        let chars = chars_of(line[s].text.as_str());
        let color = line[s].color;
        let ghost before = cells;
        let ghost mine = colored(span_views(line@)[s as int]);
        let mut i: usize = 0;
        assert(before + mine.take(0) =~= before);
        while i < chars.len()
            invariant
                i <= chars@.len(),
                max == max_cols as nat,
                max_cols > 0,
                index < usize::MAX,
                mine.len() == chars@.len(),
                forall|k: int|
                    0 <= k < mine.len() ==> #[trigger] mine[k] == (chars@[k], color),
                cells == before + mine.take(i as int),
                row_views(out@) == start + numbered(wrapping(cells, max).done, index as int),
                span_views(builder.spans@) == runs(wrapping(cells, max).cur),
                col == wrapping(cells, max).col,
                col <= usize::MAX,
                first == (wrapping(cells, max).done.len() == 0),
            decreases chars@.len() - i,
        {
            let ch: char = chars[i];
            let w: u128 = char_cols(ch) as u128;
            let ghost state = wrapping(cells, max);
            let ghost next = cells.push((ch, color));
            proof {
                assert(next.drop_last() =~= cells);
                assert(next =~= before + mine.take(i as int + 1));
            }
            if col > 0 && col + w > max_cols as u128 {
                let ghost out0 = out@;
                let row = VisualLine {
                    number: if first {
                        Some(index + 1)
                    } else {
                        None
                    },
                    spans: builder.take(),
                };
                let ghost r = row;
                out.push(row);
                proof {
                    lemma_row_views_push(out0, r);
                    lemma_numbered_push(state.done, state.cur, index as int);
                    assert(row_views(out@) =~= start + numbered(
                        state.done.push(state.cur),
                        index as int,
                    ));
                    assert(span_views(builder.spans@) =~= runs(seq![]));
                }
                first = false;
                col = 0;
                builder.push(ch, color, Ghost(Seq::empty()));
                proof {
                    assert(Seq::<(char, (u8, u8, u8))>::empty().push((ch, color)) =~= seq![
                        (ch, color),
                    ]);
                }
            } else {
                builder.push(ch, color, Ghost(state.cur));
            }
            col = col + w;
            proof {
                cells = next;
            }
            i += 1;
        }
        proof {
            assert(mine.take(i as int) =~= mine);
            let views = span_views(line@);
            assert(views.take(s as int + 1).drop_last() =~= views.take(s as int));
            assert(views.take(s as int + 1).last() == views[s as int]);
        }
        s += 1;
    }
    assert(span_views(line@).take(s as int) =~= span_views(line@));
    let ghost state = wrapping(cells, max);
    proof {
        assert(runs(state.cur).len() == builder.spans@.len());
        lemma_runs_empty(state.cur);
    }
    if first || builder.spans.len() > 0 {
        let ghost out0 = out@;
        let row = VisualLine {
            number: if first {
                Some(index + 1)
            } else {
                None
            },
            spans: builder.take(),
        };
        let ghost r = row;
        out.push(row);
        proof {
            lemma_row_views_push(out0, r);
            lemma_numbered_push(state.done, state.cur, index as int);
            assert(row_views(out@) =~= start + numbered(
                state.done.push(state.cur),
                index as int,
            ));
        }
    }
}

proof fn lemma_runs_empty(cells: Seq<(char, (u8, u8, u8))>)
    ensures
        runs(cells).len() == 0 <==> cells.len() == 0,
    decreases cells.len(),
{
    if cells.len() > 0 {
        lemma_runs_empty(cells.drop_last());
    }
}

/// Wraps the lines of a document into rows of at most `max_cols` columns.
pub fn wrap(lines: &Vec<Vec<Span>>, max_cols: usize) -> (r: Vec<VisualLine>)
    ensures
        row_views(r@) == wrapped(line_views(lines@), max_cols as nat),
{
    let max: usize = if max_cols == 0 {
        1
    } else {
        max_cols
    };
    let mut out: Vec<VisualLine> = Vec::new();
    if lines.len() == 0 {
        out.push(VisualLine { number: Some(1), spans: Vec::new() });
        proof {
            assert(span_views(out@[0].spans@) =~= seq![]);
            assert(row_views(out@) =~= seq![RowView { number: Some(1), runs: seq![] }]);
        }
        return out;
    }
    let mut i: usize = 0;
    let ghost all = line_views(lines@);
    assert(all.take(0) =~= Seq::<Seq<(Seq<char>, (u8, u8, u8))>>::empty());
    assert(row_views(out@) =~= document_rows(all.take(0), max as nat));
    while i < lines.len()
        invariant
            i <= lines@.len(),
            max > 0,
            all == line_views(lines@),
            row_views(out@) == document_rows(all.take(i as int), max as nat),
        decreases lines@.len() - i,
    {
        proof {
            assert(all.take(i as int + 1).drop_last() =~= all.take(i as int));
            assert(all.take(i as int + 1).last() == span_views(lines@[i as int]@));
        }
        wrap_line(&mut out, &lines[i], i, max);
        i += 1;
    }
    assert(all.take(i as int) =~= all);
    out
}

// ---------------------------------------------------------------------------
// Pages
// ---------------------------------------------------------------------------

/// All rows of the pages, in order.
pub open spec fn all_rows(pages: Seq<Vec<VisualLine>>) -> Seq<VisualLine>
    decreases pages.len(),
{
    if pages.len() == 0 {
        seq![]
    } else {
        all_rows(pages.drop_last()) + pages.last()@
    }
}

/// The rows in pages: every page but the last is full, and none is empty
/// unless there are no rows at all.
pub open spec fn paged(pages: Seq<Vec<VisualLine>>, rows: Seq<VisualLine>, per: nat) -> bool {
    &&& pages.len() > 0
    &&& all_rows(pages) == rows
    &&& forall|i: int| 0 <= i < pages.len() - 1 ==> (#[trigger] pages[i])@.len() == per
    &&& pages.last()@.len() <= per
    &&& (rows.len() > 0 ==> pages.last()@.len() > 0)
    &&& (rows.len() == 0 ==> pages.len() == 1)
}

/// Cuts the rows into pages.
pub fn paginate(lines: Vec<VisualLine>, lines_per_page: usize) -> (r: Vec<Vec<VisualLine>>)
    ensures
        paged(
            r@,
            lines@,
            if lines_per_page == 0 {
                1
            } else {
                lines_per_page as nat
            },
        ),
{
    let per: usize = if lines_per_page == 0 {
        1
    } else {
        lines_per_page
    };
    let ghost all = lines@;
    let mut source = lines;
    let mut rest: Vec<VisualLine> = Vec::new();
    assert(source@ + rest@.reverse() =~= all);
    loop
        invariant
            source@ + rest@.reverse() == all,
        ensures
            rest@.reverse() == all,
        decreases source@.len(),
    {
        let ghost s0 = source@;
        let ghost r0 = rest@;
        match source.pop() {
            Some(line) => {
                rest.push(line);
                assert(source@ + rest@.reverse() =~= s0 + r0.reverse());
            },
            None => {
                assert(s0 + r0.reverse() =~= r0.reverse());
                break;
            },
        }
    }
    let mut pages: Vec<Vec<VisualLine>> = Vec::new();
    let mut page: Vec<VisualLine> = Vec::new();
    assert(all_rows(pages@) + page@ + rest@.reverse() =~= all);
    loop
        invariant
            per > 0,
            all_rows(pages@) + page@ + rest@.reverse() == all,
            page@.len() <= per,
            forall|i: int| 0 <= i < pages@.len() ==> (#[trigger] pages@[i])@.len() == per,
            pages@.len() > 0 ==> page@.len() > 0,
            page@.len() == 0 ==> rest@.len() == all.len(),
        ensures
            all_rows(pages@) + page@ == all,
            page@.len() <= per,
            forall|i: int| 0 <= i < pages@.len() ==> (#[trigger] pages@[i])@.len() == per,
            page@.len() == 0 ==> all.len() == 0,
            pages@.len() > 0 ==> page@.len() > 0,
        decreases rest@.len(),
    {
        let ghost r0 = rest@;
        match rest.pop() {
            Some(line) => {
                let ghost p0 = page@;
                let ghost done = pages@;
                if page.len() >= per {
                    let mut full: Vec<VisualLine> = Vec::new();
                    std::mem::swap(&mut full, &mut page);
                    pages.push(full);
                    proof {
                        assert(pages@.drop_last() =~= done);
                        assert(all_rows(pages@) =~= all_rows(done) + p0);
                    }
                }
                let ghost p1 = page@;
                let ghost l = line;
                page.push(line);
                proof {
                    assert(r0.reverse() =~= seq![l] + rest@.reverse());
                    assert(all_rows(pages@) + page@ + rest@.reverse() =~= all_rows(done) + p0
                        + r0.reverse());
                }
            },
            None => {
                assert(rest@.reverse() =~= Seq::<VisualLine>::empty());
                assert(all_rows(pages@) + page@ + rest@.reverse() =~= all_rows(pages@) + page@);
                break;
            },
        }
    }
    let ghost done = pages@;
    pages.push(page);
    proof {
        assert(pages@.drop_last() =~= done);
        assert forall|i: int| 0 <= i < pages@.len() - 1 implies (#[trigger] pages@[i])@.len()
            == per by {
            assert(pages@[i] == done[i]);
        }
        if all.len() == 0 && done.len() > 0 {
            assert(all_rows(done) + page@ == all);
            assert((all_rows(done) + page@).len() == all_rows(done).len() + page@.len());
        }
    }
    pages
}

// ---------------------------------------------------------------------------
// Laws
// ---------------------------------------------------------------------------

/// The characters of some rows, in order.
pub open spec fn joined(rows: Seq<Seq<(char, (u8, u8, u8))>>) -> Seq<(char, (u8, u8, u8))>
    decreases rows.len(),
{
    if rows.len() == 0 {
        seq![]
    } else {
        joined(rows.drop_last()) + rows.last()
    }
}

proof fn lemma_joined_push(
    rows: Seq<Seq<(char, (u8, u8, u8))>>,
    row: Seq<(char, (u8, u8, u8))>,
)
    ensures
        joined(rows.push(row)) == joined(rows) + row,
{
    assert(rows.push(row).drop_last() =~= rows);
}

/// Wrapping loses and adds no character, and keeps their order and colors.
pub proof fn wrapping_keeps_every_character(cells: Seq<(char, (u8, u8, u8))>, max: nat)
    ensures
        joined(line_rows(cells, max)) == cells,
{
    lemma_wrapping_keeps(cells, max);
    let s = wrapping(cells, max);
    if s.done.len() == 0 || s.cur.len() > 0 {
        lemma_joined_push(s.done, s.cur);
    } else {
        assert(joined(s.done) + s.cur =~= joined(s.done));
    }
}

proof fn lemma_wrapping_keeps(cells: Seq<(char, (u8, u8, u8))>, max: nat)
    ensures
        joined(wrapping(cells, max).done) + wrapping(cells, max).cur == cells,
    decreases cells.len(),
{
    let s = wrapping(cells, max);
    if cells.len() == 0 {
        assert(joined(s.done) + s.cur =~= cells);
    } else {
        let p = wrapping(cells.drop_last(), max);
        lemma_wrapping_keeps(cells.drop_last(), max);
        assert(cells =~= cells.drop_last().push(cells.last()));
        if p.col > 0 && p.col + width::cols_of(cells.last().0) > max {
            lemma_joined_push(p.done, p.cur);
            assert(joined(s.done) + s.cur =~= cells);
        } else {
            assert(joined(s.done) + s.cur =~= cells);
        }
    }
}

/// Gathering into runs loses and adds no character.
pub proof fn runs_keep_every_character(cells: Seq<(char, (u8, u8, u8))>)
    ensures
        run_cells(runs(cells)) == cells,
    decreases cells.len(),
{
    if cells.len() > 0 {
        let before = runs(cells.drop_last());
        let (c, color) = cells.last();
        runs_keep_every_character(cells.drop_last());
        assert(cells =~= cells.drop_last().push((c, color)));
        let after = runs(cells);
        if before.len() > 0 && before.last().1 == color {
            assert(after.drop_last() =~= before.drop_last());
            let text = before.last().0;
            assert(text.push(c).map_values(|x: char| (x, color)) =~= text.map_values(
                |x: char| (x, color),
            ).push((c, color)));
            assert(run_cells(after) =~= run_cells(before).push((c, color)));
        } else {
            assert(after.drop_last() =~= before);
            assert(seq![c].map_values(|x: char| (x, color)) =~= seq![(c, color)]);
            assert(run_cells(after) =~= run_cells(before).push((c, color)));
        }
    }
}

/// Neighbouring runs differ in color, and none is empty.
pub proof fn runs_are_as_long_as_can_be(cells: Seq<(char, (u8, u8, u8))>, i: int)
    requires
        0 <= i < runs(cells).len(),
    ensures
        runs(cells)[i].0.len() > 0,
        i > 0 ==> runs(cells)[i - 1].1 != runs(cells)[i].1,
    decreases cells.len(),
{
    if cells.len() > 0 {
        let before = runs(cells.drop_last());
        if i < before.len() {
            runs_are_as_long_as_can_be(cells.drop_last(), i);
        }
    }
}

/// The columns of a row.
pub open spec fn row_cols(row: Seq<(char, (u8, u8, u8))>) -> nat
    decreases row.len(),
{
    if row.len() == 0 {
        0
    } else {
        row_cols(row.drop_last()) + width::cols_of(row.last().0)
    }
}

/// A row within its bounds, or one that a single character fills.
pub open spec fn fits(row: Seq<(char, (u8, u8, u8))>, max: nat) -> bool {
    row_cols(row) <= max || (row.len() > 0 && row_cols(row.drop_last()) == 0)
}

/// No row is wider than it may be, unless one character alone is.
pub proof fn rows_fit(cells: Seq<(char, (u8, u8, u8))>, max: nat, k: int)
    requires
        0 <= k < line_rows(cells, max).len(),
    ensures
        fits(line_rows(cells, max)[k], max),
{
    lemma_wrapping_fits(cells, max);
    let s = wrapping(cells, max);
    if k < s.done.len() {
        assert(line_rows(cells, max)[k] == s.done[k]);
    } else {
        assert(line_rows(cells, max)[k] == s.cur);
    }
}

proof fn lemma_wrapping_fits(cells: Seq<(char, (u8, u8, u8))>, max: nat)
    ensures
        wrapping(cells, max).col == row_cols(wrapping(cells, max).cur),
        fits(wrapping(cells, max).cur, max),
        forall|k: int|
            0 <= k < wrapping(cells, max).done.len() ==> fits(
                #[trigger] wrapping(cells, max).done[k],
                max,
            ),
    decreases cells.len(),
{
    let s = wrapping(cells, max);
    if cells.len() > 0 {
        let p = wrapping(cells.drop_last(), max);
        lemma_wrapping_fits(cells.drop_last(), max);
        let w = width::cols_of(cells.last().0);
        if p.col > 0 && p.col + w > max {
            assert(s.cur.drop_last() =~= seq![]);
            assert(row_cols(s.cur.drop_last()) == 0);
            assert forall|k: int| 0 <= k < s.done.len() implies fits(#[trigger] s.done[k], max) by {
                if k < p.done.len() {
                    assert(s.done[k] == p.done[k]);
                }
            }
        } else {
            assert(s.cur.drop_last() =~= p.cur);
        }
    }
}

/// A row is broken only before a character that would no longer fit on it.
pub proof fn rows_are_filled(cells: Seq<(char, (u8, u8, u8))>, max: nat, k: int)
    requires
        0 <= k < line_rows(cells, max).len() - 1,
    ensures
        ({
            let row = line_rows(cells, max)[k];
            let next = line_rows(cells, max)[k + 1];
            &&& row_cols(row) > 0
            &&& next.len() > 0
            &&& row_cols(row) + width::cols_of(next[0].0) > max
        }),
{
    lemma_breaks(cells, max);
    let s = wrapping(cells, max);
    assert(overflows(s.done.push(s.cur), k, max));
}

/// The first character of the row after row `k` would not have fitted on it.
spec fn overflows(rows: Seq<Seq<(char, (u8, u8, u8))>>, k: int, max: nat) -> bool {
    &&& row_cols(rows[k]) > 0
    &&& rows[k + 1].len() > 0
    &&& row_cols(rows[k]) + width::cols_of(rows[k + 1][0].0) > max
}

proof fn lemma_breaks(cells: Seq<(char, (u8, u8, u8))>, max: nat)
    ensures
        ({
            let s = wrapping(cells, max);
            &&& s.done.len() > 0 ==> s.cur.len() > 0
            &&& forall|k: int|
                0 <= k < s.done.len() ==> #[trigger] overflows(s.done.push(s.cur), k, max)
        }),
    decreases cells.len(),
{
    if cells.len() > 0 {
        let before = cells.drop_last();
        let p = wrapping(before, max);
        let s = wrapping(cells, max);
        lemma_breaks(before, max);
        lemma_wrapping_fits(before, max);
        let rows = s.done.push(s.cur);
        let prior = p.done.push(p.cur);
        assert forall|k: int| 0 <= k < s.done.len() implies #[trigger] overflows(rows, k, max) by {
            if k < p.done.len() {
                assert(overflows(prior, k, max));
                assert(rows[k] == prior[k]);
                if k + 1 < p.done.len() {
                    assert(rows[k + 1] == prior[k + 1]);
                } else {
                    assert(rows[k + 1][0] == prior[k + 1][0]);
                }
            }
        }
    }
}

/// The numbers that rows bear, in order.
pub open spec fn row_numbers(rows: Seq<RowView>) -> Seq<int>
    decreases rows.len(),
{
    if rows.len() == 0 {
        seq![]
    } else {
        match rows.last().number {
            Some(n) => row_numbers(rows.drop_last()).push(n),
            None => row_numbers(rows.drop_last()),
        }
    }
}

proof fn lemma_continuations_bear_no_number(
    before: Seq<RowView>,
    rows: Seq<Seq<(char, (u8, u8, u8))>>,
    line: int,
)
    ensures
        row_numbers(before + numbered(rows, line)) == if rows.len() == 0 {
            row_numbers(before)
        } else {
            row_numbers(before).push(line + 1)
        },
    decreases rows.len(),
{
    let all = before + numbered(rows, line);
    if rows.len() == 0 {
        assert(all =~= before);
    } else {
        lemma_continuations_bear_no_number(before, rows.drop_last(), line);
        assert(all.drop_last() =~= before + numbered(rows.drop_last(), line));
        assert(all.last() == numbered(rows, line)[rows.len() - 1]);
    }
}

/// The rows of a document bear the numbers of its lines, each once and in
/// order.
pub proof fn lines_are_numbered_in_order(
    lines: Seq<Seq<(Seq<char>, (u8, u8, u8))>>,
    max: nat,
)
    ensures
        row_numbers(document_rows(lines, max)) == Seq::new(lines.len(), |i: int| i + 1),
    decreases lines.len(),
{
    if lines.len() > 0 {
        lines_are_numbered_in_order(lines.drop_last(), max);
        let before = document_rows(lines.drop_last(), max);
        let rows = line_rows(run_cells(lines.last()), max);
        lemma_continuations_bear_no_number(before, rows, lines.len() - 1);
        assert(Seq::new(lines.len(), |i: int| i + 1) =~= Seq::new(
            (lines.len() - 1) as nat,
            |i: int| i + 1,
        ).push(lines.len() as int));
    } else {
        assert(row_numbers(document_rows(lines, max)) =~= Seq::new(0, |i: int| i + 1));
    }
}

/// The characters of some rows, in order.
pub open spec fn printed(rows: Seq<RowView>) -> Seq<(char, (u8, u8, u8))>
    decreases rows.len(),
{
    if rows.len() == 0 {
        seq![]
    } else {
        printed(rows.drop_last()) + run_cells(rows.last().runs)
    }
}

/// The characters of some lines, in order.
pub open spec fn written(lines: Seq<Seq<(Seq<char>, (u8, u8, u8))>>) -> Seq<
    (char, (u8, u8, u8)),
>
    decreases lines.len(),
{
    if lines.len() == 0 {
        seq![]
    } else {
        written(lines.drop_last()) + run_cells(lines.last())
    }
}

proof fn lemma_printed_lines(
    before: Seq<RowView>,
    rows: Seq<Seq<(char, (u8, u8, u8))>>,
    line: int,
)
    ensures
        printed(before + numbered(rows, line)) == printed(before) + joined(rows),
    decreases rows.len(),
{
    let all = before + numbered(rows, line);
    if rows.len() == 0 {
        assert(all =~= before);
        assert(printed(before) + joined(rows) =~= printed(before));
    } else {
        lemma_printed_lines(before, rows.drop_last(), line);
        assert(all.drop_last() =~= before + numbered(rows.drop_last(), line));
        assert(all.last() == numbered(rows, line)[rows.len() - 1]);
        runs_keep_every_character(rows.last());
        assert(printed(before) + joined(rows) =~= printed(before) + joined(rows.drop_last())
            + rows.last());
    }
}

/// A document's rows hold all of its characters, in order and in their colors.
pub proof fn the_whole_document_is_printed(
    lines: Seq<Seq<(Seq<char>, (u8, u8, u8))>>,
    max_cols: nat,
)
    ensures
        printed(wrapped(lines, max_cols)) == written(lines),
{
    let max = if max_cols == 0 {
        1
    } else {
        max_cols
    };
    if lines.len() == 0 {
        let rows = wrapped(lines, max_cols);
        assert(rows.drop_last() =~= seq![]);
        assert(printed(rows.drop_last()) =~= seq![]);
        assert(run_cells(rows.last().runs) =~= seq![]);
        assert(printed(rows) =~= written(lines));
    } else {
        lemma_document_is_printed(lines, max);
    }
}

proof fn lemma_document_is_printed(lines: Seq<Seq<(Seq<char>, (u8, u8, u8))>>, max: nat)
    ensures
        printed(document_rows(lines, max)) == written(lines),
    decreases lines.len(),
{
    if lines.len() > 0 {
        lemma_document_is_printed(lines.drop_last(), max);
        let before = document_rows(lines.drop_last(), max);
        let cells = run_cells(lines.last());
        lemma_printed_lines(before, line_rows(cells, max), lines.len() - 1);
        wrapping_keeps_every_character(cells, max);
    }
}

/// The number of pages is that of the rows, divided and rounded up; one at
/// least.
pub proof fn page_numbers(pages: Seq<Vec<VisualLine>>, rows: Seq<VisualLine>, per: nat)
    requires
        per > 0,
        paged(pages, rows, per),
    ensures
        (pages.len() - 1) * per <= rows.len() <= pages.len() * per,
        rows.len() > 0 ==> (pages.len() - 1) * per < rows.len(),
{
    lemma_full_pages(pages.drop_last(), per);
    assert(all_rows(pages).len() == all_rows(pages.drop_last()).len() + pages.last()@.len());
    assert((pages.len() - 1) * per + per == pages.len() * per) by (nonlinear_arith)
        requires
            pages.len() >= 1,
    ;
}

proof fn lemma_full_pages(pages: Seq<Vec<VisualLine>>, per: nat)
    requires
        forall|i: int| 0 <= i < pages.len() ==> (#[trigger] pages[i])@.len() == per,
    ensures
        all_rows(pages).len() == pages.len() * per,
    decreases pages.len(),
{
    if pages.len() > 0 {
        assert forall|i: int| 0 <= i < pages.drop_last().len() implies (
        #[trigger] pages.drop_last()[i])@.len() == per by {
            assert(pages.drop_last()[i] == pages[i]);
        }
        lemma_full_pages(pages.drop_last(), per);
        assert((pages.len() - 1) * per + per == pages.len() * per) by (nonlinear_arith)
            requires
                pages.len() >= 1,
        ;
    } else {
        assert(pages.len() * per == 0) by (nonlinear_arith)
            requires
                pages.len() == 0,
        ;
    }
}

// ---------------------------------------------------------------------------
// The estimate of pages
// ---------------------------------------------------------------------------

/// The text between the line feeds.
pub open spec fn pieces_of(source: Seq<char>) -> Seq<Seq<char>>
    decreases source.len(),
{
    if source.len() == 0 {
        seq![seq![]]
    } else {
        let rest = pieces_of(source.drop_last());
        if source.last() == '\n' {
            rest.push(seq![])
        } else {
            rest.drop_last().push(rest.last().push(source.last()))
        }
    }
}

/// The lines hold the source, a line for each piece of it, in any colors.
pub open spec fn spells(lines: Seq<Seq<(Seq<char>, (u8, u8, u8))>>, source: Seq<char>) -> bool {
    let pieces = pieces_of(source);
    &&& lines.len() == pieces.len()
    &&& forall|i: int|
        0 <= i < lines.len() ==> plain_text(run_cells(#[trigger] lines[i])) == pieces[i]
}

/// A line of one run for each piece holds the source.
pub proof fn plain_lines_spell_their_source(source: Seq<char>, color: (u8, u8, u8))
    ensures
        spells(pieces_of(source).map_values(|p: Seq<char>| seq![(p, color)]), source),
{
    let pieces = pieces_of(source);
    let lines = pieces.map_values(|p: Seq<char>| seq![(p, color)]);
    assert forall|i: int| 0 <= i < lines.len() implies plain_text(run_cells(#[trigger] lines[i]))
        == pieces[i] by {
        let run = (pieces[i], color);
        assert(lines[i] == seq![run]);
        assert(lines[i].drop_last() =~= Seq::empty());
        assert(run_cells(lines[i].drop_last()) =~= Seq::empty());
        assert(run_cells(lines[i]) =~= colored(run));
        assert(plain_text(colored(run)) =~= pieces[i]);
    }
}

/// Every character but the line feeds takes one column.
pub open spec fn one_column_each(source: Seq<char>) -> bool {
    forall|i: int|
        0 <= i < source.len() && source[i] != '\n' ==> width::cols_of(#[trigger] source[i]) == 1
}

/// Where every character takes one column, the pages that a document is
/// estimated to take are those that it is cut into.
pub proof fn the_estimate_is_the_page_count(
    source: Seq<char>,
    lines: Seq<Vec<Span>>,
    rows: Seq<VisualLine>,
    pages: Seq<Vec<VisualLine>>,
    cols: nat,
    lines_per_page: nat,
)
    requires
        one_column_each(source),
        spells(line_views(lines), source),
        row_views(rows) == wrapped(line_views(lines), cols),
        paged(pages, rows, models::at_least_one(lines_per_page)),
    ensures
        pages.len() == models::page_count(source, cols, lines_per_page),
        pages.len() <= i32::MAX ==> models::page_count(source, cols, lines_per_page) as i32
            == pages.len(),
{
    let max = models::at_least_one(cols);
    let per = models::at_least_one(lines_per_page);
    let views = line_views(lines);
    let pieces = pieces_of(source);
    lemma_pieces(source, max);
    assert forall|i: int| 0 <= i < pieces.len() implies one_column_each(#[trigger] pieces[i])
        && !pieces[i].contains('\n') by {
        lemma_pieces_are_narrow(source, i);
    }
    lemma_document_row_count(views, pieces, max);
    assert(rows.len() == row_views(rows).len());
    page_numbers(pages, rows, per);
    let p = pages.len() as int;
    let n = rows.len() as int;
    let d = per as int;
    lemma_rounded_up(n, d, p);
}

proof fn lemma_rounded_up(n: int, d: int, q: int)
    requires
        d > 0,
        (q - 1) * d < n <= q * d,
    ensures
        (n + d - 1) / d == q,
{
    assert((q - 1) * d + d == q * d) by (nonlinear_arith);
    vstd::arithmetic::div_mod::lemma_fundamental_div_mod_converse(
        n + d - 1,
        d,
        q,
        n + d - 1 - q * d,
    );
}

/// The rows of some lines of one-column characters.
spec fn piece_rows(pieces: Seq<Seq<char>>, cols: nat) -> nat
    decreases pieces.len(),
{
    if pieces.len() == 0 {
        0
    } else {
        piece_rows(pieces.drop_last(), cols) + models::rows_of_width(pieces.last().len(), cols)
    }
}

proof fn lemma_pieces(source: Seq<char>, cols: nat)
    ensures
        pieces_of(source).len() > 0,
        pieces_of(source).last().len() == models::last_width(source),
        piece_rows(pieces_of(source).drop_last(), cols) == models::closed_rows(source, cols),
        piece_rows(pieces_of(source), cols) == models::total_rows(source, cols),
    decreases source.len(),
{
    let pieces = pieces_of(source);
    if source.len() == 0 {
        assert(pieces.drop_last() =~= Seq::empty());
    } else {
        let rest = pieces_of(source.drop_last());
        lemma_pieces(source.drop_last(), cols);
        if source.last() == '\n' {
            assert(pieces.drop_last() =~= rest);
        } else {
            assert(pieces.drop_last() =~= rest.drop_last());
        }
    }
}

proof fn lemma_pieces_are_narrow(source: Seq<char>, i: int)
    requires
        one_column_each(source),
        0 <= i < pieces_of(source).len(),
    ensures
        one_column_each(pieces_of(source)[i]),
        !pieces_of(source)[i].contains('\n'),
    decreases source.len(),
{
    if source.len() > 0 {
        let before = source.drop_last();
        let rest = pieces_of(before);
        let c = source.last();
        lemma_pieces(before, 1);
        assert forall|k: int| 0 <= k < before.len() && before[k] != '\n' implies width::cols_of(
            #[trigger] before[k],
        ) == 1 by {
            assert(source[k] == before[k]);
        }
        assert(source[source.len() - 1] == c);
        if i < rest.len() - 1 {
            lemma_pieces_are_narrow(before, i);
        } else if c != '\n' {
            lemma_pieces_are_narrow(before, i);
            let piece = rest.last();
            assert forall|k: int| 0 <= k < piece.push(c).len() implies #[trigger] piece.push(c)[k]
                != '\n' && width::cols_of(piece.push(c)[k]) == 1 by {
                if k < piece.len() {
                    assert(piece.contains(piece[k]));
                    assert(piece.push(c)[k] == piece[k]);
                }
            }
        } else if i == rest.len() - 1 {
            lemma_pieces_are_narrow(before, i);
        }
    }
}

proof fn lemma_document_row_count(
    lines: Seq<Seq<(Seq<char>, (u8, u8, u8))>>,
    pieces: Seq<Seq<char>>,
    max: nat,
)
    requires
        max > 0,
        lines.len() == pieces.len(),
        forall|i: int|
            0 <= i < lines.len() ==> plain_text(run_cells(#[trigger] lines[i])) == pieces[i],
        forall|i: int| 0 <= i < pieces.len() ==> one_column_each(#[trigger] pieces[i]),
        forall|i: int| 0 <= i < pieces.len() ==> !(#[trigger] pieces[i]).contains('\n'),
    ensures
        document_rows(lines, max).len() == piece_rows(pieces, max),
    decreases lines.len(),
{
    if lines.len() > 0 {
        let n = lines.len() - 1;
        lemma_document_row_count(lines.drop_last(), pieces.drop_last(), max);
        let cells = run_cells(lines[n]);
        let piece = pieces[n];
        assert(plain_text(cells) == piece);
        assert forall|k: int| 0 <= k < cells.len() implies width::cols_of((#[trigger] cells[k]).0)
            == 1 by {
            assert(plain_text(cells)[k] == cells[k].0);
            assert(piece.contains(piece[k]));
            assert(width::cols_of(piece[k]) == 1);
        }
        lemma_line_row_count(cells, max);
    }
}

proof fn lemma_line_row_count(cells: Seq<(char, (u8, u8, u8))>, max: nat)
    requires
        max > 0,
        forall|k: int| 0 <= k < cells.len() ==> width::cols_of((#[trigger] cells[k]).0) == 1,
    ensures
        line_rows(cells, max).len() == models::rows_of_width(cells.len(), max),
{
    lemma_rows_fill_up(cells, max);
    let s = wrapping(cells, max);
    let full = s.done.len() as int;
    if cells.len() > 0 {
        assert((full + 1 - 1) * (max as int) == full * max) by (nonlinear_arith);
        assert((full + 1) * (max as int) == full * max + max) by (nonlinear_arith);
        lemma_rounded_up(cells.len() as int, max as int, full + 1);
    }
}

proof fn lemma_rows_fill_up(cells: Seq<(char, (u8, u8, u8))>, max: nat)
    requires
        max > 0,
        forall|k: int| 0 <= k < cells.len() ==> width::cols_of((#[trigger] cells[k]).0) == 1,
    ensures
        ({
            let s = wrapping(cells, max);
            &&& s.done.len() * max + s.cur.len() == cells.len()
            &&& s.col == s.cur.len() <= max
            &&& cells.len() > 0 ==> s.cur.len() > 0
            &&& cells.len() == 0 ==> s.done.len() == 0
        }),
    decreases cells.len(),
{
    if cells.len() > 0 {
        let before = cells.drop_last();
        assert forall|k: int| 0 <= k < before.len() implies width::cols_of(
            (#[trigger] before[k]).0,
        ) == 1 by {
            assert(before[k] == cells[k]);
        }
        lemma_rows_fill_up(before, max);
        assert(width::cols_of(cells[cells.len() - 1].0) == 1);
        let n = wrapping(before, max).done.len();
        assert((n + 1) * max == n * max + max) by (nonlinear_arith);
    } else {
        assert(0 * max == 0);
    }
}

} // verus!
