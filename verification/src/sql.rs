//! Numbered parameters of database queries.

use vstd::prelude::*;

use crate::text::{concat, decimal};
use crate::text;

verus! {

/// A value bound to a query.
#[derive(Debug, Clone, PartialEq, Eq)]
pub enum SqlValue {
    Null,
    Int(i64),
    Text(String),
    /// A decimal number, as written.
    Decimal(String),
}

/// A bound value, by its content.
pub enum SqlView {
    Null,
    Int(int),
    Text(Seq<char>),
    Decimal(Seq<char>),
}

impl View for SqlValue {
    type V = SqlView;

    open spec fn view(&self) -> SqlView {
        match *self {
            SqlValue::Null => SqlView::Null,
            SqlValue::Int(n) => SqlView::Int(n as int),
            SqlValue::Text(s) => SqlView::Text(s@),
            SqlValue::Decimal(s) => SqlView::Decimal(s@),
        }
    }
}

pub open spec fn arg_views(args: Seq<SqlValue>) -> Seq<SqlView> {
    args.map_values(|a: SqlValue| a@)
}

/// The placeholder of parameter `n`, counted from one.
pub open spec fn placeholder(n: nat) -> Seq<char> {
    "$"@ + text::decimal_digits(n)
}

/// The parameters bound so far.
#[derive(Debug)]
pub struct Params {
    pub args: Vec<SqlValue>,
}

impl Params {
    /// The values, by content.
    pub open spec fn values(&self) -> Seq<SqlView> {
        arg_views(self.args@)
    }

    pub fn new() -> (r: Self)
        ensures
            r.values() == Seq::<SqlView>::empty(),
    {
        let r = Params { args: Vec::new() };
        assert(r.values() =~= Seq::<SqlView>::empty());
        r
    }

    /// Binds a value and gives the placeholder that stands for it.
    pub fn bind(&mut self, value: SqlValue) -> (r: String)
        ensures
            final(self).values() == old(self).values().push(value@),
            r@ == placeholder(old(self).values().len() + 1),
    {
        let ghost before = self.values();
        let ghost v = value@;
        self.args.push(value);
        assert(self.values() =~= before.push(v));
        let n: u64 = self.args.len() as u64;
        concat("$", decimal(n).as_str())
    }

    pub fn bind_int(&mut self, value: i64) -> (r: String)
        ensures
            final(self).values() == old(self).values().push(SqlView::Int(value as int)),
            r@ == placeholder(old(self).values().len() + 1),
    {
        self.bind(SqlValue::Int(value))
    }

    pub fn bind_text(&mut self, value: &str) -> (r: String)
        ensures
            final(self).values() == old(self).values().push(SqlView::Text(value@)),
            r@ == placeholder(old(self).values().len() + 1),
    {
        self.bind(SqlValue::Text(value.to_owned()))
    }
}

/// A query and the values bound to it.
#[derive(Debug)]
pub struct Query {
    pub sql: String,
    pub args: Vec<SqlValue>,
}

/// The query's text and values are these.
pub open spec fn query_is(q: Query, sql: Seq<char>, args: Seq<SqlView>) -> bool {
    q.sql@ == sql && arg_views(q.args@) == args
}

/// The text holds these words.
pub open spec fn says(sql: Seq<char>, words: Seq<char>) -> bool {
    exists|at: int| #[trigger] text::stands_at(sql, words, at)
}

/// A text says what a part of it says, and the part with what follows it.
pub proof fn lemma_says(before: Seq<char>, part: Seq<char>, after: Seq<char>, words: Seq<char>)
    requires
        says(part, words),
    ensures
        says(before + part + after, words),
{
    let at = choose|at: int| #[trigger] text::stands_at(part, words, at);
    let all = before + part + after;
    let there = before.len() + at;
    assert(all.subrange(there, there + words.len()) =~= part.subrange(at, at + words.len()));
    assert(text::stands_at(all, words, there));
}

pub proof fn lemma_says_joined(
    before: Seq<char>,
    part: Seq<char>,
    value: Seq<char>,
    after: Seq<char>,
    words: Seq<char>,
)
    requires
        text::has_suffix(part, words),
    ensures
        says(before + part + value + after, words + value),
{
    let all = before + part + value + after;
    let at = before.len() + part.len() - words.len();
    let n = words.len() + value.len();
    assert forall|i: int| 0 <= i < n implies all.subrange(at, at + n)[i] == (words + value)[i] by {
        if i < words.len() {
            assert(all[at + i] == part[part.len() - words.len() + i]);
            assert(part.subrange(part.len() - words.len(), part.len() as int)[i] == words[i]);
        } else {
            assert(all[at + i] == value[i - words.len()]);
        }
    }
    assert(all.subrange(at, at + n) =~= words + value);
    assert(text::stands_at(all, words + value, at));
}

/// The placeholders of parameters `from + 1 ..= from + n`, separated by commas.
pub open spec fn placeholders(from: nat, n: nat) -> Seq<char>
    decreases n,
{
    if n == 0 {
        seq![]
    } else if n == 1 {
        placeholder(from + 1)
    } else {
        placeholders(from, (n - 1) as nat) + ","@ + placeholder(from + n)
    }
}

/// Placeholders are numbered on: one more comes behind a comma, with the next
/// number.
pub proof fn placeholders_are_numbered_on(from: nat, n: nat)
    ensures
        placeholders(from, 0).len() == 0,
        placeholders(from, 1) == "$"@ + text::decimal_digits(from + 1),
        n > 0 ==> placeholders(from, n + 1) == placeholders(from, n) + ","@ + ("$"@
            + text::decimal_digits(from + n + 1)),
{
}

/// The integers as bound values.
pub open spec fn int_views(ids: Seq<i32>) -> Seq<SqlView> {
    ids.map_values(|id: i32| SqlView::Int(id as int))
}

/// Binds these ids and lists their placeholders.
pub fn bind_ids(p: &mut Params, ids: &Vec<i32>) -> (r: String)
    ensures
        final(p).values() == old(p).values() + int_views(ids@),
        r@ == placeholders(old(p).values().len(), ids@.len()),
{
    let ghost start = p.values();
    let ghost all = int_views(ids@);
    let mut out = String::new();
    let mut i: usize = 0;
    assert(start + all.take(0) =~= start);
    assert(out@ =~= placeholders(start.len(), 0));
    while i < ids.len()
        invariant
            i <= ids@.len(),
            all == int_views(ids@),
            p.values() == start + all.take(i as int),
            out@ == placeholders(start.len(), i as nat),
        decreases ids@.len() - i,
    {
        if i > 0 {
            out.append(",");
        }
        let ph = p.bind_int(ids[i] as i64);
        let ghost before = out@;
        out.append(ph.as_str());
        proof {
            assert(start + all.take(i as int + 1) =~= (start + all.take(i as int)).push(
                SqlView::Int(ids@[i as int] as int),
            ));
            if i == 0 {
                assert(out@ =~= ph@);
            }
        }
        i += 1;
    }
    assert(all.take(i as int) =~= all);
    out
}

/// A statement as it is put together: its text and the values bound so far.
#[verifier::ext_equal]
pub struct Draft {
    pub sql: Seq<char>,
    pub args: Seq<SqlView>,
}

impl Draft {
    pub open spec fn empty() -> Draft {
        Draft { sql: seq![], args: seq![] }
    }

    pub open spec fn text(self, s: Seq<char>) -> Draft {
        Draft { sql: self.sql + s, args: self.args }
    }

    /// A bound value, with nothing written.
    pub open spec fn hold(self, v: SqlView) -> Draft {
        Draft { sql: self.sql, args: self.args.push(v) }
    }

    /// A bound value in its place.
    pub open spec fn value(self, v: SqlView) -> Draft {
        self.hold(v).text(placeholder(self.args.len() + 1))
    }

    /// A bound value in its place, or a literal `NULL`.
    pub open spec fn maybe(self, v: Option<SqlView>) -> Draft {
        match v {
            Some(x) => self.value(x),
            None => self.text("NULL"@),
        }
    }
}

/// The query as a finished draft.
pub open spec fn draft_of(q: Query) -> Draft {
    Draft { sql: q.sql@, args: arg_views(q.args@) }
}

pub open spec fn int_of(v: Option<i32>) -> Option<SqlView> {
    match v {
        Some(n) => Some(SqlView::Int(n as int)),
        None => None,
    }
}

pub open spec fn text_of(v: Option<String>) -> Option<SqlView> {
    match v {
        Some(s) => Some(SqlView::Text(s@)),
        None => None,
    }
}

/// Puts a statement together.
#[derive(Debug)]
pub struct QueryBuilder {
    pub sql: String,
    pub params: Params,
}

impl View for QueryBuilder {
    type V = Draft;

    open spec fn view(&self) -> Draft {
        Draft { sql: self.sql@, args: self.params.values() }
    }
}

impl QueryBuilder {
    pub fn new() -> (r: Self)
        ensures
            r@ == Draft::empty(),
    {
        let r = QueryBuilder { sql: String::new(), params: Params::new() };
        assert(r@ =~= Draft::empty());
        r
    }

    pub fn text(&mut self, s: &str)
        ensures
            final(self)@ == old(self)@.text(s@),
    {
        self.sql.append(s);
    }

    /// Binds a value; gives its placeholder.
    pub fn hold_text(&mut self, v: &str) -> (r: String)
        ensures
            final(self)@ == old(self)@.hold(SqlView::Text(v@)),
            r@ == placeholder(old(self)@.args.len() + 1),
    {
        self.params.bind_text(v)
    }

    pub fn hold_int(&mut self, v: i64) -> (r: String)
        ensures
            final(self)@ == old(self)@.hold(SqlView::Int(v as int)),
            r@ == placeholder(old(self)@.args.len() + 1),
    {
        self.params.bind_int(v)
    }

    pub fn number(&mut self, v: i64)
        ensures
            final(self)@ == old(self)@.value(SqlView::Int(v as int)),
    {
        let ph = self.params.bind_int(v);
        self.sql.append(ph.as_str());
    }

    pub fn string(&mut self, v: &str)
        ensures
            final(self)@ == old(self)@.value(SqlView::Text(v@)),
    {
        let ph = self.params.bind_text(v);
        self.sql.append(ph.as_str());
    }

    pub fn maybe_int(&mut self, v: Option<i32>)
        ensures
            final(self)@ == old(self)@.maybe(int_of(v)),
    {
        match v {
            Some(n) => self.number(n as i64),
            None => self.text("NULL"),
        }
    }

    pub fn maybe_string(&mut self, v: &Option<String>)
        ensures
            final(self)@ == old(self)@.maybe(text_of(*v)),
    {
        match v {
            Some(s) => self.string(s.as_str()),
            None => self.text("NULL"),
        }
    }

    pub fn finish(self) -> (r: Query)
        ensures
            draft_of(r) == self@,
    {
        Query { sql: self.sql, args: self.params.args }
    }
}

} // verus!
