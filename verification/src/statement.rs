//! Statements on one table, with what they do: the same statement is written out
//! for the database and has a meaning on the rows of the table.

use vstd::prelude::*;

use crate::sql::{Draft, SqlView};
use crate::sql;
use crate::text;

verus! {

// ---------------------------------------------------------------------------
// Values and rows
// ---------------------------------------------------------------------------

/// A value in a row. Times are in seconds.
pub enum Val {
    Null,
    Int(int),
    Text(Seq<char>),
    Time(int),
    Bool(bool),
}

pub open spec fn val_of(v: SqlView) -> Val {
    match v {
        SqlView::Null => Val::Null,
        SqlView::Int(n) => Val::Int(n),
        SqlView::Text(s) => Val::Text(s),
        SqlView::Decimal(s) => Val::Text(s),
    }
}

/// A row: its values by column. A column that it lacks is null.
pub open spec fn column(row: Map<Seq<char>, Val>, name: Seq<char>) -> Val {
    if row.contains_key(name) {
        row[name]
    } else {
        Val::Null
    }
}

/// A truth value of three: a comparison with null is neither true nor false.
pub open spec fn truth(v: Val) -> Option<bool> {
    match v {
        Val::Bool(b) => Some(b),
        _ => None,
    }
}

pub open spec fn of_truth(t: Option<bool>) -> Val {
    match t {
        Some(b) => Val::Bool(b),
        None => Val::Null,
    }
}

// ---------------------------------------------------------------------------
// Terms
// ---------------------------------------------------------------------------

pub enum BinOp {
    Plus,
    Minus,
    Equal,
    Differs,
    Less,
    AtMost,
    Above,
    And,
    Or,
}

/// An expression of the database.
pub enum Term {
    Column(Seq<char>),
    /// A column of a table that is named.
    ColumnOf(Seq<char>, Seq<char>),
    /// A value that is bound where it stands.
    Arg(SqlView),
    /// A value that was bound before, by its number from one.
    Bound(nat),
    Number(nat),
    /// A literal text.
    Word(Seq<char>),
    Null,
    Now,
    /// So many seconds.
    Seconds(Box<Term>),
    IsNull(Box<Term>),
    IsNotNull(Box<Term>),
    Group(Box<Term>),
    Greatest(Box<Term>, Box<Term>),
    Bin(BinOp, Box<Term>, Box<Term>),
    /// A value under a condition, else another one.
    Case(Box<Term>, Box<Term>, Box<Term>),
    /// A text that is stored as a document.
    Document(Box<Term>),
    /// What a row that is not added has in this column.
    Excluded(Seq<char>, Box<Term>),
}

/// A value that is bound where it stands, or null.
pub open spec fn optional(v: Option<SqlView>) -> Term {
    match v {
        Some(x) => Term::Arg(x),
        None => Term::Null,
    }
}

pub open spec fn op_text(op: BinOp) -> Seq<char> {
    match op {
        BinOp::Plus => " + "@,
        BinOp::Minus => " - "@,
        BinOp::Equal => " = "@,
        BinOp::Differs => " <> "@,
        BinOp::Less => " < "@,
        BinOp::AtMost => " <= "@,
        BinOp::Above => " > "@,
        BinOp::And => " AND "@,
        BinOp::Or => " OR "@,
    }
}

/// The term, written out after what is there.
pub open spec fn write(t: Term, d: Draft) -> Draft
    decreases t,
{
    match t {
        Term::Column(name) => d.text(name),
        Term::ColumnOf(table, name) => d.text(table).text("."@).text(name),
        Term::Arg(v) => d.value(v),
        Term::Bound(n) => d.text(sql::placeholder(n)),
        Term::Number(n) => d.text(text::decimal_digits(n)),
        Term::Word(w) => d.text("'"@).text(w).text("'"@),
        Term::Null => d.text("NULL"@),
        Term::Now => d.text("NOW()"@),
        Term::Seconds(n) => write(*n, d.text("("@)).text(" * INTERVAL '1 second')"@),
        Term::IsNull(a) => write(*a, d).text(" IS NULL"@),
        Term::IsNotNull(a) => write(*a, d).text(" IS NOT NULL"@),
        Term::Group(a) => write(*a, d.text("("@)).text(")"@),
        Term::Greatest(a, b) => write(*b, write(*a, d.text("GREATEST("@)).text(", "@)).text(
            ")"@,
        ),
        Term::Bin(op, a, b) => write(*b, write(*a, d).text(op_text(op))),
        Term::Case(c, a, b) => write(
            *b,
            write(*a, write(*c, d.text("CASE WHEN "@)).text(" THEN "@)).text(" ELSE "@),
        ).text(" END"@),
        Term::Document(a) => write(*a, d).text("::jsonb"@),
        Term::Excluded(name, _) => d.text("EXCLUDED."@).text(name),
    }
}

pub open spec fn sum(a: Val, b: Val) -> Val {
    match (a, b) {
        (Val::Int(x), Val::Int(y)) => Val::Int(x + y),
        _ => Val::Null,
    }
}

/// A difference: of numbers, or a time so many seconds before another.
pub open spec fn difference(a: Val, b: Val) -> Val {
    match (a, b) {
        (Val::Int(x), Val::Int(y)) => Val::Int(x - y),
        (Val::Time(x), Val::Int(y)) => Val::Time(x - y),
        _ => Val::Null,
    }
}

/// Whether one comes before the other, where both are known.
pub open spec fn precedes(a: Val, b: Val) -> Option<bool> {
    match (a, b) {
        (Val::Int(x), Val::Int(y)) => Some(x < y),
        (Val::Time(x), Val::Time(y)) => Some(x < y),
        _ => None,
    }
}

/// Whether they are equal, where both are known.
pub open spec fn equals(a: Val, b: Val) -> Option<bool> {
    if a is Null || b is Null {
        None
    } else {
        Some(a == b)
    }
}

pub open spec fn negated(t: Option<bool>) -> Option<bool> {
    match t {
        Some(b) => Some(!b),
        None => None,
    }
}

pub open spec fn both(a: Option<bool>, b: Option<bool>) -> Option<bool> {
    if a == Some(false) || b == Some(false) {
        Some(false)
    } else if a == Some(true) && b == Some(true) {
        Some(true)
    } else {
        None
    }
}

pub open spec fn either(a: Option<bool>, b: Option<bool>) -> Option<bool> {
    if a == Some(true) || b == Some(true) {
        Some(true)
    } else if a == Some(false) && b == Some(false) {
        Some(false)
    } else {
        None
    }
}

pub open spec fn applied(op: BinOp, a: Val, b: Val) -> Val {
    match op {
        BinOp::Plus => sum(a, b),
        BinOp::Minus => difference(a, b),
        BinOp::Equal => of_truth(equals(a, b)),
        BinOp::Differs => of_truth(negated(equals(a, b))),
        BinOp::Less => of_truth(precedes(a, b)),
        BinOp::AtMost => of_truth(negated(precedes(b, a))),
        BinOp::Above => of_truth(precedes(b, a)),
        BinOp::And => of_truth(both(truth(a), truth(b))),
        BinOp::Or => of_truth(either(truth(a), truth(b))),
    }
}

/// The value of a term on a row at a time, with these values bound.
pub open spec fn eval(
    t: Term,
    row: Map<Seq<char>, Val>,
    now: int,
    args: Seq<SqlView>,
) -> Val
    decreases t,
{
    match t {
        Term::Column(name) => column(row, name),
        Term::ColumnOf(_, name) => column(row, name),
        Term::Arg(v) => val_of(v),
        Term::Bound(n) => val_of(args[n - 1]),
        Term::Number(n) => Val::Int(n as int),
        Term::Word(w) => Val::Text(w),
        Term::Null => Val::Null,
        Term::Now => Val::Time(now),
        Term::Seconds(n) => eval(*n, row, now, args),
        Term::IsNull(a) => Val::Bool(eval(*a, row, now, args) is Null),
        Term::IsNotNull(a) => Val::Bool(!(eval(*a, row, now, args) is Null)),
        Term::Group(a) => eval(*a, row, now, args),
        Term::Greatest(a, b) => {
            let x = eval(*a, row, now, args);
            let y = eval(*b, row, now, args);
            if x is Null {
                y
            } else if y is Null || precedes(x, y) != Some(true) {
                x
            } else {
                y
            }
        },
        Term::Bin(op, a, b) => applied(op, eval(*a, row, now, args), eval(*b, row, now, args)),
        Term::Case(c, a, b) => if eval(*c, row, now, args) == Val::Bool(true) {
            eval(*a, row, now, args)
        } else {
            eval(*b, row, now, args)
        },
        Term::Document(a) => eval(*a, row, now, args),
        Term::Excluded(_, a) => eval(*a, row, now, args),
    }
}

/// A row for which a condition is true. Neither false nor unknown is.
pub open spec fn holds(
    t: Term,
    row: Map<Seq<char>, Val>,
    now: int,
    args: Seq<SqlView>,
) -> bool {
    eval(t, row, now, args) == Val::Bool(true)
}

pub open spec fn bin(op: BinOp, a: Term, b: Term) -> Term {
    Term::Bin(op, Box::new(a), Box::new(b))
}

// ---------------------------------------------------------------------------
// Statements
// ---------------------------------------------------------------------------

/// Columns and what they are set to.
pub open spec fn write_sets(sets: Seq<(Seq<char>, Term)>, n: int, d: Draft) -> Draft
    decreases n,
{
    if n <= 0 {
        d
    } else if n == 1 {
        write(sets[0].1, d.text(sets[0].0).text(" = "@))
    } else {
        write(
            sets[n - 1].1,
            write_sets(sets, n - 1, d).text(", "@).text(sets[n - 1].0).text(" = "@),
        )
    }
}

/// The row with its columns set. All terms see the row as it was.
pub open spec fn with_sets(
    row: Map<Seq<char>, Val>,
    sets: Seq<(Seq<char>, Term)>,
    n: int,
    now: int,
    args: Seq<SqlView>,
) -> Map<Seq<char>, Val>
    decreases n,
{
    if n <= 0 {
        row
    } else {
        with_sets(row, sets, n - 1, now, args).insert(
            sets[n - 1].0,
            eval(sets[n - 1].1, row, now, args),
        )
    }
}

/// A statement that changes the rows under a condition.
pub struct Update {
    pub table: Seq<char>,
    pub sets: Seq<(Seq<char>, Term)>,
    pub guard: Term,
}

impl Update {
    pub open spec fn draft(self) -> Draft {
        write(
            self.guard,
            write_sets(
                self.sets,
                self.sets.len() as int,
                Draft::empty().text("UPDATE "@).text(self.table).text(" SET "@),
            ).text(" WHERE "@),
        )
    }

    /// Whether it changes this row.
    pub open spec fn takes(self, row: Map<Seq<char>, Val>, now: int) -> bool {
        holds(self.guard, row, now, self.draft().args)
    }

    /// The row after it.
    pub open spec fn run(self, row: Map<Seq<char>, Val>, now: int) -> Map<Seq<char>, Val> {
        if self.takes(row, now) {
            with_sets(row, self.sets, self.sets.len() as int, now, self.draft().args)
        } else {
            row
        }
    }
}

pub open spec fn write_names(cols: Seq<(Seq<char>, Term)>, n: int, d: Draft) -> Draft
    decreases n,
{
    if n <= 0 {
        d
    } else if n == 1 {
        d.text(cols[0].0)
    } else {
        write_names(cols, n - 1, d).text(", "@).text(cols[n - 1].0)
    }
}

pub open spec fn write_values(cols: Seq<(Seq<char>, Term)>, n: int, d: Draft) -> Draft
    decreases n,
{
    if n <= 0 {
        d
    } else if n == 1 {
        write(cols[0].1, d)
    } else {
        write(cols[n - 1].1, write_values(cols, n - 1, d).text(", "@))
    }
}

/// A statement that adds a row.
pub struct Insert {
    pub table: Seq<char>,
    pub cols: Seq<(Seq<char>, Term)>,
}

impl Insert {
    pub open spec fn draft(self) -> Draft {
        let n = self.cols.len() as int;
        let named = write_names(
            self.cols,
            n,
            Draft::empty().text("INSERT INTO "@).text(self.table).text(" ("@),
        );
        write_values(self.cols, n, named.text(") VALUES ("@)).text(")"@)
    }

    /// The row that it adds.
    pub open spec fn added(self, now: int) -> Map<Seq<char>, Val> {
        with_sets(Map::empty(), self.cols, self.cols.len() as int, now, self.draft().args)
    }
}

/// A statement that adds a row, or changes the one that is there under its key,
/// if a condition is true of it. The first `keys` columns are the key.
pub struct Upsert {
    pub table: Seq<char>,
    /// Values that are bound before the text.
    pub held: Seq<SqlView>,
    pub cols: Seq<(Seq<char>, Term)>,
    pub keys: int,
    pub sets: Seq<(Seq<char>, Term)>,
    pub guard: Option<Term>,
}

impl Upsert {
    pub open spec fn draft(self) -> Draft {
        let start = Draft { sql: seq![], args: self.held };
        let n = self.cols.len() as int;
        let named = write_names(
            self.cols,
            n,
            start.text("INSERT INTO "@).text(self.table).text(" ("@),
        );
        let valued = write_values(self.cols, n, named.text(") VALUES ("@));
        let keyed = write_names(self.cols, self.keys, valued.text(") ON CONFLICT ("@));
        let set = write_sets(
            self.sets,
            self.sets.len() as int,
            keyed.text(") DO UPDATE SET "@),
        );
        match self.guard {
            Some(g) => write(g, set.text(" WHERE "@)),
            None => set,
        }
    }

    /// The row that it adds where there is none.
    pub open spec fn added(self, now: int) -> Map<Seq<char>, Val> {
        with_sets(Map::empty(), self.cols, self.cols.len() as int, now, self.draft().args)
    }

    /// The key of the row that it adds or changes.
    pub open spec fn key(self, now: int) -> Seq<Val> {
        Seq::new(
            self.keys as nat,
            |i: int| eval(self.cols[i].1, Map::empty(), now, self.draft().args),
        )
    }

    /// Whether it changes this row, which is there.
    pub open spec fn takes(self, row: Map<Seq<char>, Val>, now: int) -> bool {
        match self.guard {
            Some(g) => holds(g, row, now, self.draft().args),
            None => true,
        }
    }

    /// The table after it: rows by their keys.
    pub open spec fn run(
        self,
        rows: Map<Seq<Val>, Map<Seq<char>, Val>>,
        now: int,
    ) -> Map<Seq<Val>, Map<Seq<char>, Val>> {
        let k = self.key(now);
        if !rows.contains_key(k) {
            rows.insert(k, self.added(now))
        } else if self.takes(rows[k], now) {
            rows.insert(
                k,
                with_sets(
                    rows[k],
                    self.sets,
                    self.sets.len() as int,
                    now,
                    self.draft().args,
                ),
            )
        } else {
            rows
        }
    }
}

// ---------------------------------------------------------------------------
// Bound values
// ---------------------------------------------------------------------------

/// Whether a value is bound within the term.
pub open spec fn binds(t: Term) -> bool
    decreases t,
{
    match t {
        Term::Arg(_) => true,
        Term::Seconds(a) => binds(*a),
        Term::IsNull(a) => binds(*a),
        Term::IsNotNull(a) => binds(*a),
        Term::Group(a) => binds(*a),
        Term::Greatest(a, b) => binds(*a) || binds(*b),
        Term::Bin(_, a, b) => binds(*a) || binds(*b),
        Term::Case(c, a, b) => binds(*c) || binds(*a) || binds(*b),
        Term::Document(a) => binds(*a),
        _ => false,
    }
}

pub proof fn lemma_binds_nothing(t: Term, d: Draft)
    requires
        !binds(t),
    ensures
        write(t, d).args == d.args,
    decreases t,
{
    match t {
        Term::Seconds(n) => {
            lemma_binds_nothing(*n, d.text("("@));
        },
        Term::IsNull(a) => {
            lemma_binds_nothing(*a, d);
        },
        Term::IsNotNull(a) => {
            lemma_binds_nothing(*a, d);
        },
        Term::Group(a) => {
            lemma_binds_nothing(*a, d.text("("@));
        },
        Term::Greatest(a, b) => {
            lemma_binds_nothing(*a, d.text("GREATEST("@));
            lemma_binds_nothing(*b, write(*a, d.text("GREATEST("@)).text(", "@));
        },
        Term::Bin(op, a, b) => {
            lemma_binds_nothing(*a, d);
            lemma_binds_nothing(*b, write(*a, d).text(op_text(op)));
        },
        Term::Case(c, a, b) => {
            let d1 = d.text("CASE WHEN "@);
            lemma_binds_nothing(*c, d1);
            let d2 = write(*c, d1).text(" THEN "@);
            lemma_binds_nothing(*a, d2);
            lemma_binds_nothing(*b, write(*a, d2).text(" ELSE "@));
        },
        Term::Document(a) => {
            lemma_binds_nothing(*a, d);
        },
        _ => {},
    }
}

pub proof fn lemma_names_bind_nothing(cols: Seq<(Seq<char>, Term)>, n: int, d: Draft)
    ensures
        write_names(cols, n, d).args == d.args,
    decreases n,
{
    if n > 1 {
        lemma_names_bind_nothing(cols, n - 1, d);
    }
}

pub proof fn lemma_values_bind_nothing(cols: Seq<(Seq<char>, Term)>, n: int, d: Draft)
    requires
        n <= cols.len(),
        forall|i: int| 0 <= i < cols.len() ==> !binds((#[trigger] cols[i]).1),
    ensures
        write_values(cols, n, d).args == d.args,
        write_sets(cols, n, d).args == d.args,
    decreases n,
{
    if n == 1 {
        lemma_binds_nothing(cols[0].1, d);
        lemma_binds_nothing(cols[0].1, d.text(cols[0].0).text(" = "@));
    } else if n > 1 {
        lemma_values_bind_nothing(cols, n - 1, d);
        lemma_binds_nothing(cols[n - 1].1, write_values(cols, n - 1, d).text(", "@));
        lemma_binds_nothing(
            cols[n - 1].1,
            write_sets(cols, n - 1, d).text(", "@).text(cols[n - 1].0).text(" = "@),
        );
    }
}

impl Upsert {
    /// All values are bound before the text.
    pub open spec fn binds_first(self) -> bool {
        &&& forall|i: int| 0 <= i < self.cols.len() ==> !binds((#[trigger] self.cols[i]).1)
        &&& forall|i: int| 0 <= i < self.sets.len() ==> !binds((#[trigger] self.sets[i]).1)
        &&& self.guard matches Some(g) ==> !binds(g)
    }
}

pub proof fn lemma_held_values(u: Upsert)
    requires
        u.binds_first(),
    ensures
        u.draft().args == u.held,
{
    let start = Draft { sql: seq![], args: u.held };
    let n = u.cols.len() as int;
    let begun = start.text("INSERT INTO "@).text(u.table).text(" ("@);
    lemma_names_bind_nothing(u.cols, n, begun);
    let named = write_names(u.cols, n, begun);
    lemma_values_bind_nothing(u.cols, n, named.text(") VALUES ("@));
    let valued = write_values(u.cols, n, named.text(") VALUES ("@));
    lemma_names_bind_nothing(u.cols, u.keys, valued.text(") ON CONFLICT ("@));
    let keyed = write_names(u.cols, u.keys, valued.text(") ON CONFLICT ("@));
    let m = u.sets.len() as int;
    lemma_values_bind_nothing(u.sets, m, keyed.text(") DO UPDATE SET "@));
    let set = write_sets(u.sets, m, keyed.text(") DO UPDATE SET "@));
    match u.guard {
        Some(g) => {
            lemma_binds_nothing(g, set.text(" WHERE "@));
        },
        None => {},
    }
}

} // verus!
