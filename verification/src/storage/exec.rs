//! Values, statements and results.

use vstd::prelude::*;

verus! {

/// One SQLite value. A real is held as its IEEE 754 bit pattern.
#[derive(Debug)]
pub enum DbValue {
    Null,
    Integer(i64),
    Real(u64),
    Text(String),
    Blob(Vec<u8>),
}

/// What a [`Value`] holds.
pub ghost enum Datum {
    Null,
    Integer(i64),
    Real(u64),
    Text(Seq<char>),
    Blob(Seq<u8>),
}

impl View for DbValue {
    type V = Datum;

    open spec fn view(&self) -> Datum {
        match self {
            DbValue::Null => Datum::Null,
            DbValue::Integer(n) => Datum::Integer(*n),
            DbValue::Real(bits) => Datum::Real(*bits),
            DbValue::Text(s) => Datum::Text(s@),
            DbValue::Blob(b) => Datum::Blob(b@),
        }
    }
}

/// A copy of a byte vector.
pub fn copy_bytes(bytes: &Vec<u8>) -> (r: Vec<u8>)
    ensures
        r@ == bytes@,
{
    let mut out: Vec<u8> = Vec::with_capacity(bytes.len());
    let mut i: usize = 0;
    while i < bytes.len()
        invariant
            i <= bytes@.len(),
            out@ == bytes@.take(i as int),
        decreases bytes@.len() - i,
    {
        out.push(bytes[i]);
        assert(bytes@.take(i as int + 1) =~= bytes@.take(i as int).push(bytes@[i as int]));
        i = i + 1;
    }
    assert(bytes@.take(bytes@.len() as int) =~= bytes@);
    out
}

impl DbValue {
    /// The same value again.
    pub fn copy(&self) -> (r: DbValue)
        ensures
            r@ == self@,
    {
        match self {
            DbValue::Null => DbValue::Null,
            DbValue::Integer(n) => DbValue::Integer(*n),
            DbValue::Real(bits) => DbValue::Real(*bits),
            DbValue::Text(s) => DbValue::Text(s.clone()),
            DbValue::Blob(b) => DbValue::Blob(copy_bytes(b)),
        }
    }

    pub fn is_null(&self) -> (r: bool)
        ensures
            r == (self@ == Datum::Null),
    {
        match self {
            DbValue::Null => true,
            _ => false,
        }
    }
}

/// The values of a row.
pub open spec fn row_view(row: Seq<DbValue>) -> Seq<Datum> {
    row.map_values(|v: DbValue| v@)
}

/// The rows of a result.
pub open spec fn rows_view(rows: Seq<Vec<DbValue>>) -> Seq<Seq<Datum>> {
    rows.map_values(|r: Vec<DbValue>| row_view(r@))
}

/// The same row again.
pub fn copy_row(row: &Vec<DbValue>) -> (r: Vec<DbValue>)
    ensures
        row_view(r@) == row_view(row@),
{
    let mut out: Vec<DbValue> = Vec::with_capacity(row.len());
    let mut i: usize = 0;
    while i < row.len()
        invariant
            i <= row@.len(),
            row_view(out@) =~= row_view(row@).take(i as int),
        decreases row@.len() - i,
    {
        let ghost before = out@;
        out.push(row[i].copy());
        assert(row_view(out@) =~= row_view(before).push(row@[i as int]@));
        i = i + 1;
    }
    assert(row_view(row@).take(row@.len() as int) =~= row_view(row@));
    out
}

/// The same rows again.
pub fn copy_rows(rows: &Vec<Vec<DbValue>>) -> (r: Vec<Vec<DbValue>>)
    ensures
        rows_view(r@) == rows_view(rows@),
{
    let mut out: Vec<Vec<DbValue>> = Vec::with_capacity(rows.len());
    let mut i: usize = 0;
    while i < rows.len()
        invariant
            i <= rows@.len(),
            rows_view(out@) =~= rows_view(rows@).take(i as int),
        decreases rows@.len() - i,
    {
        let ghost before = out@;
        out.push(copy_row(&rows[i]));
        assert(rows_view(out@) =~= rows_view(before).push(row_view(rows@[i as int]@)));
        i = i + 1;
    }
    assert(rows_view(rows@).take(rows@.len() as int) =~= rows_view(rows@));
    out
}

/// A vector of strings again.
pub fn copy_strings(v: &Vec<String>) -> (r: Vec<String>)
    ensures
        crate::text::views(r@) == crate::text::views(v@),
{
    let mut out: Vec<String> = Vec::with_capacity(v.len());
    let mut i: usize = 0;
    while i < v.len()
        invariant
            i <= v@.len(),
            crate::text::views(out@) =~= crate::text::views(v@).take(i as int),
        decreases v@.len() - i,
    {
        let ghost before = out@;
        out.push(v[i].clone());
        assert(crate::text::views(out@) =~= crate::text::views(before).push(v@[i as int]@));
        i = i + 1;
    }
    assert(crate::text::views(v@).take(v@.len() as int) =~= crate::text::views(v@));
    out
}

/// The rows a query returned, under its column names.
#[derive(Debug)]
pub struct QueryResult {
    pub columns: Vec<String>,
    pub rows: Vec<Vec<DbValue>>,
}

/// What a [`QueryResult`] holds.
pub ghost struct Table {
    pub columns: Seq<Seq<char>>,
    pub rows: Seq<Seq<Datum>>,
}

impl View for QueryResult {
    type V = Table;

    open spec fn view(&self) -> Table {
        Table { columns: crate::text::views(self.columns@), rows: rows_view(self.rows@) }
    }
}

/// The result of a query that returned nothing.
pub open spec fn empty_table() -> Table {
    Table { columns: Seq::empty(), rows: Seq::empty() }
}

impl QueryResult {
    pub fn empty() -> (r: QueryResult)
        ensures
            r@ == empty_table(),
    {
        let r = QueryResult { columns: Vec::new(), rows: Vec::new() };
        assert(crate::text::views(r.columns@) =~= Seq::empty());
        assert(rows_view(r.rows@) =~= Seq::empty());
        r
    }
}

/// One SQL statement with the values bound to its parameters.
#[derive(Debug)]
pub struct DbStatement {
    pub sql: String,
    pub params: Vec<DbValue>,
}

/// What a [`DbStatement`] holds.
pub ghost struct StatementModel {
    pub sql: Seq<char>,
    pub params: Seq<Datum>,
}

impl View for DbStatement {
    type V = StatementModel;

    open spec fn view(&self) -> StatementModel {
        StatementModel { sql: self.sql@, params: row_view(self.params@) }
    }
}

impl DbStatement {
    /// A statement without parameters.
    pub fn new(sql: &str) -> (r: DbStatement)
        ensures
            r@ == (StatementModel { sql: sql@, params: Seq::empty() }),
    {
        let r = DbStatement { sql: sql.to_owned(), params: Vec::new() };
        assert(row_view(r.params@) =~= Seq::empty());
        r
    }

    /// A statement with bound parameters.
    pub fn with_params(sql: &str, params: Vec<DbValue>) -> (r: DbStatement)
        ensures
            r@ == (StatementModel { sql: sql@, params: row_view(params@) }),
    {
        DbStatement { sql: sql.to_owned(), params }
    }

    /// The same statement again.
    pub fn copy(&self) -> (r: DbStatement)
        ensures
            r@ == self@,
    {
        DbStatement { sql: self.sql.clone(), params: copy_row(&self.params) }
    }
}

/// The effect of a write.
#[derive(Clone, Copy, Debug, PartialEq, Eq, Structural)]
pub struct WriteSummary {
    pub rows_affected: u64,
    pub last_insert_rowid: i64,
}

/// What running a statement gave.
#[derive(Debug)]
pub enum Executed {
    Rows(QueryResult),
    Changed(WriteSummary),
}

/// What became of a statement: a result, or a rejection by the database.
#[derive(Debug)]
pub enum Outcome {
    Ran(Executed),
    Rejected(String),
}

/// What an [`Outcome`] holds.
pub ghost enum OutcomeView {
    Rows(Table),
    Changed(WriteSummary),
    Rejected(Seq<char>),
}

impl View for Outcome {
    type V = OutcomeView;

    open spec fn view(&self) -> OutcomeView {
        match self {
            Outcome::Ran(Executed::Rows(r)) => OutcomeView::Rows(r@),
            Outcome::Ran(Executed::Changed(w)) => OutcomeView::Changed(*w),
            Outcome::Rejected(m) => OutcomeView::Rejected(m@),
        }
    }
}

pub open spec fn outcomes_view(v: Seq<Outcome>) -> Seq<OutcomeView> {
    v.map_values(|o: Outcome| o@)
}

} // verus!
