//! Routing a single client statement to the shards that hold its rows.
//!
//! A row lives on the shard that its shard-key value routes to. This module reads that value out
//! of an `INSERT`, `UPDATE`, `DELETE` or `SELECT` and says where the statement runs. Only a
//! statement that pins the shard key to a literal goes to one shard. A write that does not pin it
//! goes to every shard, so that no row is missed; a read that does not is left to the caller. An
//! `INSERT` whose key value is missing or not a literal is refused.
//!
//! The routing key of a text is its UTF-8 bytes, that of an integer its little-endian bytes. So an
//! insert and a lookup agree on the shard of a value.

use vstd::bytes::{spec_u64_to_le_bytes, u64_to_le_bytes};
use vstd::prelude::*;
use vstd::utf8::encode_utf8;

use super::ddl::has_rule;
use super::plan::ShardKeys;
use super::reader::{
    insert_of, insert_of_rows, insert_print_of, insert_text, lone_insert, lone_statement, parse_one,
    writes_rows, Parsed,
};
use super::syntax::{
    columns_model, constraints_model, from_model, targets_model, term_option, terms_model,
    text_option, value_rows_model, BinOp, Body, BodyModel, ColumnModel, ColumnRule, Constraint,
    ConstraintModel, CreateTableModel, DeleteModel, FromItem, FromModel, InsertModel, InsertSource,
    InsertSourceModel, InsertTree, Literal, LiteralModel, Node, NodeModel, QueryModel, Source, SourceModel, Sql,
    SqlModel, TableTree, Term, TermModel, UpdateModel, UpdateTree,
};
use crate::text::{
    float_text, is_float, is_signed, lookup, lower, parse_i64, same_ignoring_case, signed_text,
    to_lower, views,
};

verus! {

/// Where a client statement should run.
#[derive(Debug)]
pub enum Route {
    /// Exactly one shard; run the original SQL there.
    One(u32),
    /// A multi-row `INSERT` whose rows span shards: run each rewritten `INSERT` on its shard.
    Split(Vec<(u32, String)>),
    /// Every shard: a write with no shard-key predicate.
    All,
    /// Cannot be routed safely; refuse with this reason.
    Refuse(String),
    /// No opinion; the caller uses its default.
    Passthrough,
}

// ---- routing keys ------------------------------------------------------------------------------

/// A literal as a routing key: reals are literals, but no keys.
pub ghost enum KeyLiteral {
    Integer(i64),
    Real,
    Text(Seq<char>),
}

pub enum KeyValue {
    Integer(i64),
    Real,
    Text(String),
}

impl View for KeyValue {
    type V = KeyLiteral;

    open spec fn view(&self) -> KeyLiteral {
        match self {
            KeyValue::Integer(n) => KeyLiteral::Integer(*n),
            KeyValue::Real => KeyLiteral::Real,
            KeyValue::Text(s) => KeyLiteral::Text(s@),
        }
    }
}

/// The literal that an expression is, looking through minus signs. An integer beyond 64 bits is a
/// real, as is the negation of one that has none in 64 bits.
pub open spec fn literal_key(t: TermModel) -> Option<KeyLiteral>
    decreases t,
{
    match t.node {
        NodeModel::Literal(LiteralModel::Number(n)) => match signed_text(n) {
            Some(v) => if i64::MIN <= v <= i64::MAX {
                Some(KeyLiteral::Integer(v as i64))
            } else {
                Some(KeyLiteral::Real)
            },
            None => if float_text(n) {
                Some(KeyLiteral::Real)
            } else {
                None
            },
        },
        NodeModel::Literal(LiteralModel::Text(s)) => Some(KeyLiteral::Text(s)),
        NodeModel::Literal(LiteralModel::Boolean(b)) => Some(
            KeyLiteral::Integer(
                if b {
                    1
                } else {
                    0
                },
            ),
        ),
        NodeModel::Minus(inner) => match literal_key(*inner) {
            Some(KeyLiteral::Integer(n)) => if n == i64::MIN {
                Some(KeyLiteral::Real)
            } else {
                Some(KeyLiteral::Integer((-n) as i64))
            },
            Some(KeyLiteral::Real) => Some(KeyLiteral::Real),
            _ => None,
        },
        _ => None,
    }
}

/// The bytes that a key routes by: text as UTF-8, an integer little-endian, a real none.
pub open spec fn key_bytes(v: KeyLiteral) -> Option<Seq<u8>> {
    match v {
        KeyLiteral::Text(s) => Some(encode_utf8(s)),
        KeyLiteral::Integer(n) => Some(spec_u64_to_le_bytes(n as u64)),
        KeyLiteral::Real => None,
    }
}

/// The bytes that an expression routes by, where it is a literal that can.
pub open spec fn routing_key(t: TermModel) -> Option<Seq<u8>> {
    match literal_key(t) {
        Some(v) => key_bytes(v),
        None => None,
    }
}

pub open spec fn key_option(k: Option<KeyValue>) -> Option<KeyLiteral> {
    match k {
        Some(v) => Some(v@),
        None => None,
    }
}

pub open spec fn bytes_option(k: Option<Vec<u8>>) -> Option<Seq<u8>> {
    match k {
        Some(v) => Some(v@),
        None => None,
    }
}

/// A literal usable as a routing key.
pub fn literal_of(t: &Term) -> (r: Option<KeyValue>)
    ensures
        key_option(r) == literal_key(t.model()),
    decreases t,
{
    match &t.node {
        Node::Literal(l) => match l {
            Literal::Number(n) => match parse_i64(n.as_str()) {
                Some(v) => Some(KeyValue::Integer(v)),
                None => if is_signed(n.as_str()) || is_float(n.as_str()) {
                    Some(KeyValue::Real)
                } else {
                    None
                },
            },
            Literal::Text(s) => Some(KeyValue::Text(s.clone())),
            Literal::Boolean(b) => Some(
                KeyValue::Integer(
                    if *b {
                        1
                    } else {
                        0
                    },
                ),
            ),
            _ => None,
        },
        Node::Minus(inner) => match literal_of(inner) {
            Some(KeyValue::Integer(n)) => if n == i64::MIN {
                Some(KeyValue::Real)
            } else {
                Some(KeyValue::Integer(-n))
            },
            Some(KeyValue::Real) => Some(KeyValue::Real),
            _ => None,
        },
        _ => None,
    }
}

/// The bytes that a key routes by.
pub fn route_key_bytes(v: &KeyValue) -> (r: Option<Vec<u8>>)
    ensures
        bytes_option(r) == key_bytes(v@),
{
    match v {
        KeyValue::Text(s) => Some(s.as_str().as_bytes_vec()),
        KeyValue::Integer(n) => Some(u64_to_le_bytes(*n as u64)),
        KeyValue::Real => None,
    }
}

fn key_of_term(t: &Term) -> (r: Option<Vec<u8>>)
    ensures
        bytes_option(r) == routing_key(t.model()),
{
    match literal_of(t) {
        Some(v) => route_key_bytes(&v),
        None => None,
    }
}

// ---- predicates that pin the key ---------------------------------------------------------------

/// Whether an expression is a reference to the column `key`, in any case.
pub open spec fn names_column(t: TermModel, key: Seq<char>) -> bool {
    match t.node {
        NodeModel::Identifier(s) => lower(s) == lower(key),
        NodeModel::Compound(parts) => parts.len() > 0 && lower(parts.last()) == lower(key),
        _ => false,
    }
}

/// The literal that a condition pins the column `key` to: in an equality, or in one that every row
/// must meet (`AND`). An `OR` is not looked into: it can match rows on several shards.
pub open spec fn pinned(t: TermModel, key: Seq<char>) -> Option<KeyLiteral>
    decreases t,
{
    match t.node {
        NodeModel::Nested(inner) => pinned(*inner, key),
        NodeModel::Binary(left, BinOp::And, right) => match pinned(*left, key) {
            Some(v) => Some(v),
            None => pinned(*right, key),
        },
        NodeModel::Binary(left, BinOp::Eq, right) => if names_column(*left, key) {
            literal_key(*right)
        } else if names_column(*right, key) {
            literal_key(*left)
        } else {
            None
        },
        _ => None,
    }
}

fn is_column(t: &Term, key: &str) -> (r: bool)
    ensures
        r == names_column(t.model(), key@),
{
    match &t.node {
        Node::Identifier(s) => same_ignoring_case(s.as_str(), key),
        Node::Compound(parts) => if parts.len() > 0 {
            assert(views(parts@).last() == parts@.last()@);
            same_ignoring_case(parts[parts.len() - 1].as_str(), key)
        } else {
            false
        },
        _ => false,
    }
}

fn pin_value(t: &Term, key: &str) -> (r: Option<KeyValue>)
    ensures
        key_option(r) == pinned(t.model(), key@),
    decreases t,
{
    match &t.node {
        Node::Nested(inner) => pin_value(inner, key),
        Node::Binary(left, BinOp::And, right) => match pin_value(left, key) {
            Some(v) => Some(v),
            None => pin_value(right, key),
        },
        Node::Binary(left, BinOp::Eq, right) => {
            if is_column(left, key) {
                literal_of(right)
            } else if is_column(right, key) {
                literal_of(left)
            } else {
                None
            }
        },
        _ => None,
    }
}

// ---- the tables of a statement -----------------------------------------------------------------

/// The shard-key column declared for a table.
pub open spec fn declared_key(table: Seq<char>, keys: Map<Seq<char>, Seq<char>>) -> Option<
    Seq<char>,
> {
    lookup(keys, lower(table))
}

fn shard_key_column<'a>(table: &str, keys: &'a ShardKeys) -> (r: Option<&'a String>)
    ensures
        match r {
            Some(k) => declared_key(table@, keys@) == Some(k@),
            None => declared_key(table@, keys@) is None,
        },
{
    let name = to_lower(table);
    keys.get(name.as_str())
}

/// The single table of a `FROM` item.
pub open spec fn only_table(f: FromModel) -> Option<Seq<char>> {
    if f.joins.len() > 0 {
        None
    } else {
        match f.source {
            SourceModel::Table { ident, .. } => Some(ident),
            _ => None,
        }
    }
}

/// The single table of a `FROM`.
pub open spec fn target_table(from: Seq<FromModel>) -> Option<Seq<char>> {
    if from.len() == 1 {
        only_table(from[0])
    } else {
        None
    }
}

pub open spec fn name_option(s: Option<&String>) -> Option<Seq<char>> {
    match s {
        Some(s) => Some(s@),
        None => None,
    }
}

fn table_of(f: &FromItem) -> (r: Option<&String>)
    ensures
        name_option(r) == only_table(f@),
{
    if f.joins.len() > 0 {
        return None;
    }
    match &f.source {
        Source::Table { ident, .. } => Some(ident),
        _ => None,
    }
}

fn table_of_list(from: &Vec<FromItem>) -> (r: Option<&String>)
    ensures
        name_option(r) == target_table(from_model(from@)),
{
    if from.len() != 1 {
        return None;
    }
    assert(from_model(from@)[0] == from@[0]@);
    table_of(&from[0])
}

// ---- UPDATE of the key itself ------------------------------------------------------------------

/// Whether one of the assignments sets the column `key`.
pub open spec fn assigns(targets: Seq<Seq<Seq<char>>>, key: Seq<char>) -> bool {
    exists|i: int, k: int|
        0 <= i < targets.len() && 0 <= k < targets[i].len() && lower(#[trigger] targets[i][k])
            == lower(key)
}

/// The declared shard key that an `UPDATE` of a table changes.
pub open spec fn key_changed(
    update: UpdateModel,
    table: Option<Seq<char>>,
    keys: Map<Seq<char>, Seq<char>>,
) -> Option<Seq<char>> {
    match table {
        None => None,
        Some(t) => match declared_key(t, keys) {
            None => None,
            Some(key) => if assigns(update.targets, key) {
                Some(key)
            } else {
                None
            },
        },
    }
}

fn any_assigns(targets: &Vec<Vec<String>>, key: &str) -> (r: bool)
    ensures
        r == assigns(targets_model(targets@), key@),
{
    let ghost model = targets_model(targets@);
    let mut i: usize = 0;
    while i < targets.len()
        invariant
            i <= targets@.len(),
            model == targets_model(targets@),
            forall|a: int, b: int|
                0 <= a < i && 0 <= b < model[a].len() ==> lower(#[trigger] model[a][b]) != lower(
                    key@,
                ),
        decreases targets@.len() - i,
    {
        let columns = &targets[i];
        assert(model[i as int] == views(columns@));
        let mut k: usize = 0;
        while k < columns.len()
            invariant
                i < targets@.len(),
                k <= columns@.len(),
                model == targets_model(targets@),
                model[i as int] == views(columns@),
                forall|b: int| 0 <= b < k ==> lower(#[trigger] model[i as int][b]) != lower(key@),
            decreases columns@.len() - k,
        {
            assert(model[i as int][k as int] == columns@[k as int]@);
            if same_ignoring_case(columns[k].as_str(), key) {
                return true;
            }
            k = k + 1;
        }
        i = i + 1;
    }
    false
}

fn updated_shard_key<'a>(update: &UpdateTree, table: Option<&String>, keys: &'a ShardKeys) -> (r:
    Option<&'a String>)
    ensures
        name_option(r) == key_changed(update@, name_option(table), keys@),
{
    match table {
        None => None,
        Some(t) => match shard_key_column(t.as_str(), keys) {
            None => None,
            Some(key) => if any_assigns(&update.targets, key.as_str()) {
                Some(key)
            } else {
                None
            },
        },
    }
}

// ---- where a statement runs, by key ------------------------------------------------------------

/// Where a statement runs, in terms of routing keys: on the shard of one key, each row of an
/// insert on the shard of its own key, on every shard, or nowhere.
pub enum KeyRoute {
    One(Vec<u8>),
    Rows(Vec<Vec<u8>>),
    All,
    Refuse(String),
    Passthrough,
}

pub ghost enum KeyRouteModel {
    One(Seq<u8>),
    Rows(Seq<Seq<u8>>),
    All,
    Refuse(Seq<char>),
    Passthrough,
}

pub open spec fn byte_rows(rows: Seq<Vec<u8>>) -> Seq<Seq<u8>> {
    rows.map_values(|r: Vec<u8>| r@)
}

impl View for KeyRoute {
    type V = KeyRouteModel;

    open spec fn view(&self) -> KeyRouteModel {
        match self {
            KeyRoute::One(k) => KeyRouteModel::One(k@),
            KeyRoute::Rows(rows) => KeyRouteModel::Rows(byte_rows(rows@)),
            KeyRoute::All => KeyRouteModel::All,
            KeyRoute::Refuse(m) => KeyRouteModel::Refuse(m@),
            KeyRoute::Passthrough => KeyRouteModel::Passthrough,
        }
    }
}

/// A statement on one table with a condition: on the shard of the key it pins, else `unpinned`.
pub open spec fn point_route(
    table: Option<Seq<char>>,
    selection: Option<TermModel>,
    keys: Map<Seq<char>, Seq<char>>,
    unpinned: KeyRouteModel,
) -> KeyRouteModel {
    match table {
        None => KeyRouteModel::Passthrough,
        Some(t) => match declared_key(t, keys) {
            None => KeyRouteModel::Passthrough,
            Some(key) => match selection {
                None => unpinned,
                Some(condition) => match pinned(condition, key) {
                    None => unpinned,
                    Some(v) => match key_bytes(v) {
                        Some(bytes) => KeyRouteModel::One(bytes),
                        None => unpinned,
                    },
                },
            },
        },
    }
}

pub open spec fn unlisted_refusal(table: Seq<char>, key: Seq<char>) -> Seq<char> {
    "INSERT into `"@ + table + "` must list its columns so the shard key `"@ + key
        + "` can be located; an unlisted INSERT cannot be routed"@
}

pub open spec fn missing_column_refusal(table: Seq<char>, key: Seq<char>) -> Seq<char> {
    "the shard key column `"@ + key + "` of `"@ + table
        + "` is not in the INSERT column list, so the row cannot be routed"@
}

pub open spec fn no_values_refusal(key: Seq<char>) -> Seq<char> {
    "only INSERT ... VALUES can be routed by the shard key `"@ + key
        + "`; this form has no VALUES"@
}

pub open spec fn select_source_refusal() -> Seq<char> {
    "only INSERT ... VALUES can be routed by shard key; INSERT ... SELECT is not"@
}

pub open spec fn missing_value_refusal(key: Seq<char>) -> Seq<char> {
    "an INSERT row has no value for the shard key `"@ + key + "`"@
}

pub open spec fn not_literal_refusal(key: Seq<char>, text: Seq<char>) -> Seq<char> {
    "the shard key `"@ + key + "` must be a literal text or integer to route; got `"@ + text
        + "`"@
}

pub open spec fn no_rows_refusal() -> Seq<char> {
    "INSERT ... VALUES has no rows"@
}

pub open spec fn key_update_refusal(key: Seq<char>) -> Seq<char> {
    "the shard key column `"@ + key
        + "` cannot be updated; changing it would move a row between SQLite files outside one transaction"@
}

/// The place of a column in a column list, in any case, from `i` on.
pub open spec fn column_index(columns: Seq<Seq<char>>, key: Seq<char>, i: int) -> Option<int>
    decreases columns.len() - i,
{
    if i < 0 || i >= columns.len() {
        None
    } else if lower(columns[i]) == lower(key) {
        Some(i)
    } else {
        column_index(columns, key, i + 1)
    }
}

/// The routing keys of the first `n` rows, or the refusal of the first row without one.
pub open spec fn row_keys(rows: Seq<Seq<TermModel>>, column: int, key: Seq<char>, n: nat) -> Result<
    Seq<Seq<u8>>,
    Seq<char>,
>
    decreases n,
{
    if n == 0 || n > rows.len() {
        Ok(Seq::empty())
    } else {
        match row_keys(rows, column, key, (n - 1) as nat) {
            Err(m) => Err(m),
            Ok(done) => {
                let row = rows[n - 1];
                if column >= row.len() {
                    Err(missing_value_refusal(key))
                } else {
                    match routing_key(row[column]) {
                        Some(bytes) => Ok(done.push(bytes)),
                        None => Err(not_literal_refusal(key, row[column].text)),
                    }
                }
            },
        }
    }
}

/// An `INSERT ... VALUES` by the shard-key value of each row.
pub open spec fn insert_route(insert: InsertModel, keys: Map<Seq<char>, Seq<char>>) -> KeyRouteModel {
    match insert.table {
        None => KeyRouteModel::Passthrough,
        Some(table) => match declared_key(table, keys) {
            None => KeyRouteModel::Passthrough,
            Some(key) => if insert.columns.len() == 0 {
                KeyRouteModel::Refuse(unlisted_refusal(table, key))
            } else {
                match column_index(insert.columns, key, 0) {
                    None => KeyRouteModel::Refuse(missing_column_refusal(table, key)),
                    Some(column) => match insert.source {
                        InsertSourceModel::Missing => KeyRouteModel::Refuse(no_values_refusal(key)),
                        InsertSourceModel::Query => KeyRouteModel::Refuse(select_source_refusal()),
                        InsertSourceModel::Values(rows) => match row_keys(
                            rows,
                            column,
                            key,
                            rows.len(),
                        ) {
                            Err(m) => KeyRouteModel::Refuse(m),
                            Ok(found) => if found.len() == 0 {
                                KeyRouteModel::Refuse(no_rows_refusal())
                            } else {
                                KeyRouteModel::Rows(found)
                            },
                        },
                    },
                }
            },
        },
    }
}

/// Where a statement runs, in terms of routing keys.
pub open spec fn key_route(statement: SqlModel, keys: Map<Seq<char>, Seq<char>>) -> KeyRouteModel {
    match statement {
        SqlModel::Insert(insert) => insert_route(insert, keys),
        SqlModel::Update(update) => {
            let table = if update.joined {
                None
            } else {
                only_table(update.target)
            };
            match key_changed(update, table, keys) {
                Some(key) => KeyRouteModel::Refuse(key_update_refusal(key)),
                None => point_route(table, update.selection, keys, KeyRouteModel::All),
            }
        },
        SqlModel::Delete(delete) => point_route(
            target_table(delete.from),
            delete.selection,
            keys,
            KeyRouteModel::All,
        ),
        SqlModel::Query(query) => match query.body {
            BodyModel::Select(select) => point_route(
                target_table(select.from),
                select.selection,
                keys,
                KeyRouteModel::Passthrough,
            ),
            _ => KeyRouteModel::Passthrough,
        },
        _ => KeyRouteModel::Passthrough,
    }
}

fn route_point(
    table: Option<&String>,
    selection: &Option<Term>,
    keys: &ShardKeys,
    unpinned: KeyRoute,
) -> (r: KeyRoute)
    ensures
        r@ == point_route(name_option(table), term_option(*selection), keys@, unpinned@),
{
    let table = match table {
        None => {
            return KeyRoute::Passthrough;
        },
        Some(t) => t,
    };
    let key = match shard_key_column(table.as_str(), keys) {
        None => {
            return KeyRoute::Passthrough;
        },
        Some(k) => k,
    };
    match selection {
        None => unpinned,
        Some(condition) => match pin_value(condition, key.as_str()) {
            None => unpinned,
            Some(v) => match route_key_bytes(&v) {
                Some(bytes) => KeyRoute::One(bytes),
                None => unpinned,
            },
        },
    }
}

fn position_of(columns: &Vec<String>, key: &str) -> (r: Option<usize>)
    ensures
        column_index(views(columns@), key@, 0) == (match r {
            Some(i) => Some(i as int),
            None => None,
        }),
{
    let mut i: usize = 0;
    while i < columns.len()
        invariant
            i <= columns@.len(),
            column_index(views(columns@), key@, i as int) == column_index(views(columns@), key@, 0),
        decreases columns@.len() - i,
    {
        if same_ignoring_case(columns[i].as_str(), key) {
            return Some(i);
        }
        i = i + 1;
    }
    None
}

fn message3(a: &str, b: &str, c: &str) -> (r: String)
    ensures
        r@ == a@ + b@ + c@,
{
    let mut out = a.to_owned();
    out.append(b);
    out.append(c);
    out
}

fn message5(a: &str, b: &str, c: &str, d: &str, e: &str) -> (r: String)
    ensures
        r@ == a@ + b@ + c@ + d@ + e@,
{
    let mut out = message3(a, b, c);
    out.append(d);
    out.append(e);
    out
}

proof fn lemma_row_keys_stop(rows: Seq<Seq<TermModel>>, column: int, key: Seq<char>, n: nat, m: nat)
    requires
        n <= m <= rows.len(),
        row_keys(rows, column, key, n) is Err,
    ensures
        row_keys(rows, column, key, m) == row_keys(rows, column, key, n),
    decreases m - n,
{
    if n < m {
        lemma_row_keys_stop(rows, column, key, n, (m - 1) as nat);
    }
}

#[verifier::loop_isolation(false)]
fn keys_of_rows(rows: &Vec<Vec<Term>>, column: usize, key: &str) -> (r: Result<
    Vec<Vec<u8>>,
    String,
>)
    ensures
        row_keys(value_rows_model(rows@), column as int, key@, rows@.len()) == (match r {
            Ok(found) => Ok::<Seq<Seq<u8>>, Seq<char>>(byte_rows(found@)),
            Err(m) => Err::<Seq<Seq<u8>>, Seq<char>>(m@),
        }),
{
    let ghost model = value_rows_model(rows@);
    let mut out: Vec<Vec<u8>> = Vec::new();
    let mut i: usize = 0;
    assert(byte_rows(out@) =~= Seq::empty());
    while i < rows.len()
        invariant
            i <= rows@.len(),
            row_keys(model, column as int, key@, i as nat) == Ok::<Seq<Seq<u8>>, Seq<char>>(
                byte_rows(out@),
            ),
        decreases rows@.len() - i,
    {
        assert(model[i as int] == terms_model(rows@[i as int]@));
        let row = &rows[i];
        if column >= row.len() {
            proof {
                lemma_row_keys_stop(model, column as int, key@, (i + 1) as nat, model.len());
            }
            return Err(message3("an INSERT row has no value for the shard key `", key, "`"));
        }
        assert(model[i as int][column as int] == row@[column as int].model());
        match key_of_term(&row[column]) {
            None => {
                proof {
                    lemma_row_keys_stop(model, column as int, key@, (i + 1) as nat, model.len());
                }
                return Err(
                    message5(
                        "the shard key `",
                        key,
                        "` must be a literal text or integer to route; got `",
                        row[column].text.as_str(),
                        "`",
                    ),
                );
            },
            Some(bytes) => {
                let ghost before = out@;
                let ghost found = bytes@;
                out.push(bytes);
                assert(byte_rows(out@) =~= byte_rows(before).push(found));
            },
        }
        i = i + 1;
    }
    Ok(out)
}

/// Route an `INSERT ... VALUES` by the shard-key value of each row.
pub fn route_insert(insert: &InsertTree, keys: &ShardKeys) -> (r: KeyRoute)
    ensures
        r@ == insert_route(insert@, keys@),
{
    let table = match &insert.table {
        None => {
            return KeyRoute::Passthrough;
        },
        Some(t) => t,
    };
    let key = match shard_key_column(table.as_str(), keys) {
        None => {
            return KeyRoute::Passthrough;
        },
        Some(k) => k,
    };
    if insert.columns.len() == 0 {
        return KeyRoute::Refuse(
            message5(
                "INSERT into `",
                table.as_str(),
                "` must list its columns so the shard key `",
                key.as_str(),
                "` can be located; an unlisted INSERT cannot be routed",
            ),
        );
    }
    let column: usize = match position_of(&insert.columns, key.as_str()) {
        None => {
            return KeyRoute::Refuse(
                message5(
                    "the shard key column `",
                    key.as_str(),
                    "` of `",
                    table.as_str(),
                    "` is not in the INSERT column list, so the row cannot be routed",
                ),
            );
        },
        Some(i) => i,
    };
    match &insert.source {
        InsertSource::Missing => KeyRoute::Refuse(
            message3(
                "only INSERT ... VALUES can be routed by the shard key `",
                key.as_str(),
                "`; this form has no VALUES",
            ),
        ),
        InsertSource::Query => KeyRoute::Refuse(
            "only INSERT ... VALUES can be routed by shard key; INSERT ... SELECT is not".to_owned(),
        ),
        InsertSource::Values(rows) => {
            assert(value_rows_model(rows@).len() == rows@.len());
            match keys_of_rows(rows, column, key.as_str()) {
                Err(m) => KeyRoute::Refuse(m),
                Ok(found) => {
                    assert(byte_rows(found@).len() == found@.len());
                    if found.len() == 0 {
                        KeyRoute::Refuse("INSERT ... VALUES has no rows".to_owned())
                    } else {
                        KeyRoute::Rows(found)
                    }
                },
            }
        },
    }
}

/// Decide where a parsed statement runs, in terms of routing keys.
pub fn route_by_key(statement: &Sql, keys: &ShardKeys) -> (r: KeyRoute)
    ensures
        r@ == key_route(statement@, keys@),
{
    match statement {
        Sql::Insert(insert) => route_insert(insert, keys),
        Sql::Update(update) => {
            let table: Option<&String> = if update.joined {
                None
            } else {
                table_of(&update.target)
            };
            match updated_shard_key(update, table, keys) {
                Some(key) => KeyRoute::Refuse(
                    message3(
                        "the shard key column `",
                        key.as_str(),
                        "` cannot be updated; changing it would move a row between SQLite files outside one transaction",
                    ),
                ),
                None => route_point(table, &update.selection, keys, KeyRoute::All),
            }
        },
        Sql::Delete(delete) => route_point(
            table_of_list(&delete.from),
            &delete.selection,
            keys,
            KeyRoute::All,
        ),
        Sql::Query(query) => match &query.body {
            Body::Select(select) => route_point(
                table_of_list(&select.from),
                &select.selection,
                keys,
                KeyRoute::Passthrough,
            ),
            _ => KeyRoute::Passthrough,
        },
        _ => KeyRoute::Passthrough,
    }
}

// ---- rows to shards ----------------------------------------------------------------------------

/// The indices among the first `n` rows whose shard is `shard`, in order.
pub open spec fn rows_on(shards: Seq<u32>, shard: u32, n: nat) -> Seq<usize>
    decreases n,
{
    if n == 0 || n > shards.len() {
        Seq::empty()
    } else if shards[n - 1] == shard {
        rows_on(shards, shard, (n - 1) as nat).push((n - 1) as usize)
    } else {
        rows_on(shards, shard, (n - 1) as nat)
    }
}

pub open spec fn groups_model(groups: Seq<(u32, Vec<usize>)>) -> Seq<(u32, Seq<usize>)> {
    groups.map_values(|g: (u32, Vec<usize>)| (g.0, g.1@))
}

/// Whether `groups` is the division of the first `n` rows by shard: the shards that occur, in
/// ascending order, each with its rows in order.
pub open spec fn divides(groups: Seq<(u32, Seq<usize>)>, shards: Seq<u32>, n: nat) -> bool {
    &&& forall|a: int, b: int| 0 <= a < b < groups.len() ==> (#[trigger] groups[a]).0 < (#[trigger] groups[b]).0
    &&& forall|a: int| 0 <= a < groups.len() ==> (#[trigger] groups[a]).1 == rows_on(
        shards,
        groups[a].0,
        n,
    ) && groups[a].1.len() > 0
    &&& forall|k: int| 0 <= k < n ==> exists|a: int|
        0 <= a < groups.len() && (#[trigger] groups[a]).0 == #[trigger] shards[k]
}

/// A division says which shards occur, so there is only one.
pub proof fn law_division_is_unique(
    x: Seq<(u32, Seq<usize>)>,
    y: Seq<(u32, Seq<usize>)>,
    shards: Seq<u32>,
)
    requires
        divides(x, shards, shards.len()),
        divides(y, shards, shards.len()),
        shards.len() <= usize::MAX,
    ensures
        x == y,
{
    lemma_division_prefix(x, y, shards, if x.len() < y.len() { x.len() } else { y.len() });
    if x.len() < y.len() {
        lemma_group_occurs(y, shards, x.len() as int);
        let k = choose|k: int| 0 <= k < shards.len() && shards[k] == y[x.len() as int].0;
        let a = choose|a: int| 0 <= a < x.len() && (#[trigger] x[a]).0 == shards[k];
        assert(x[a] == y[a]);
        assert(y[a].0 < y[x.len() as int].0);
    }
    if y.len() < x.len() {
        lemma_group_occurs(x, shards, y.len() as int);
        let k = choose|k: int| 0 <= k < shards.len() && shards[k] == x[y.len() as int].0;
        let a = choose|a: int| 0 <= a < y.len() && (#[trigger] y[a]).0 == shards[k];
        assert(x[a] == y[a]);
        assert(x[a].0 < x[y.len() as int].0);
    }
    assert(x =~= y);
}

proof fn lemma_rows_on_nonempty(shards: Seq<u32>, shard: u32, n: nat)
    requires
        n <= shards.len(),
        rows_on(shards, shard, n).len() > 0,
    ensures
        exists|k: int| 0 <= k < n && #[trigger] shards[k] == shard,
    decreases n,
{
    if n > 0 {
        if shards[n - 1] == shard {
            assert(shards[n - 1] == shard);
        } else {
            lemma_rows_on_nonempty(shards, shard, (n - 1) as nat);
        }
    }
}

proof fn lemma_group_occurs(x: Seq<(u32, Seq<usize>)>, shards: Seq<u32>, a: int)
    requires
        divides(x, shards, shards.len()),
        0 <= a < x.len(),
    ensures
        exists|k: int| 0 <= k < shards.len() && #[trigger] shards[k] == x[a].0,
{
    lemma_rows_on_nonempty(shards, x[a].0, shards.len());
}

proof fn lemma_division_prefix(
    x: Seq<(u32, Seq<usize>)>,
    y: Seq<(u32, Seq<usize>)>,
    shards: Seq<u32>,
    n: nat,
)
    requires
        divides(x, shards, shards.len()),
        divides(y, shards, shards.len()),
        n <= x.len(),
        n <= y.len(),
    ensures
        forall|a: int| 0 <= a < n ==> x[a] == #[trigger] y[a],
    decreases n,
{
    if n > 0 {
        lemma_division_prefix(x, y, shards, (n - 1) as nat);
        let last = n - 1;
        if x[last].0 < y[last].0 {
            lemma_group_occurs(x, shards, last);
            let k = choose|k: int| 0 <= k < shards.len() && #[trigger] shards[k] == x[last].0;
            let a = choose|a: int| 0 <= a < y.len() && (#[trigger] y[a]).0 == shards[k];
            if a < last {
                assert(x[a] == y[a]);
                assert(x[a].0 < x[last].0);
            } else if a > last {
                assert(y[last].0 < y[a].0);
            }
        } else if y[last].0 < x[last].0 {
            lemma_group_occurs(y, shards, last);
            let k = choose|k: int| 0 <= k < shards.len() && #[trigger] shards[k] == y[last].0;
            let a = choose|a: int| 0 <= a < x.len() && (#[trigger] x[a]).0 == shards[k];
            if a < last {
                assert(x[a] == y[a]);
                assert(y[a].0 < y[last].0);
            } else if a > last {
                assert(x[last].0 < x[a].0);
            }
        }
    }
}

proof fn lemma_rows_on_absent(shards: Seq<u32>, shard: u32, n: nat)
    requires
        n <= shards.len(),
        forall|k: int| 0 <= k < n ==> #[trigger] shards[k] != shard,
    ensures
        rows_on(shards, shard, n) =~= Seq::<usize>::empty(),
    decreases n,
{
    if n > 0 {
        lemma_rows_on_absent(shards, shard, (n - 1) as nat);
    }
}

/// Divides rows by shard.
pub fn divide_rows(shards: &Vec<u32>) -> (r: Vec<(u32, Vec<usize>)>)
    ensures
        divides(groups_model(r@), shards@, shards@.len()),
{
    let mut groups: Vec<(u32, Vec<usize>)> = Vec::new();
    let mut i: usize = 0;
    while i < shards.len()
        invariant
            i <= shards@.len(),
            divides(groups_model(groups@), shards@, i as nat),
        decreases shards@.len() - i,
    {
        let shard: u32 = shards[i];
        let ghost before = groups_model(groups@);
        let mut at: usize = 0;
        while at < groups.len() && groups[at].0 < shard
            invariant
                at <= groups@.len(),
                before == groups_model(groups@),
                forall|a: int| 0 <= a < at ==> (#[trigger] before[a]).0 < shard,
            decreases groups@.len() - at,
        {
            assert(before[at as int] == (groups@[at as int].0, groups@[at as int].1@));
            at = at + 1;
        }
        if at < groups.len() && groups[at].0 == shard {
            let (found, mut rows) = groups.remove(at);
            rows.push(i);
            let ghost kept = rows@;
            groups.insert(at, (found, rows));
            proof {
                let after = groups_model(groups@);
                assert(before[at as int] == (shard, kept.drop_last()));
                assert(kept.drop_last().push(i) =~= kept);
                assert(after =~= before.update(at as int, (shard, kept)));
                assert forall|a: int| 0 <= a < after.len() implies (#[trigger] after[a]).1
                    == rows_on(shards@, after[a].0, (i + 1) as nat) && after[a].1.len() > 0 by {
                    assert(before[a].1 == rows_on(shards@, before[a].0, i as nat));
                    if a != at {
                        if a < at {
                            assert(before[a].0 < before[at as int].0);
                        } else {
                            assert(before[at as int].0 < before[a].0);
                        }
                    }
                }
                assert forall|k: int| 0 <= k < i + 1 implies exists|a: int|
                    0 <= a < after.len() && (#[trigger] after[a]).0 == #[trigger] shards@[k] by {
                    if k < i {
                        let a = choose|a: int|
                            0 <= a < before.len() && (#[trigger] before[a]).0 == shards@[k];
                        assert(after[a].0 == shards@[k]);
                    } else {
                        assert(after[at as int].0 == shards@[k]);
                    }
                }
                assert forall|a: int, b: int| 0 <= a < b < after.len() implies (#[trigger] after[a]).0
                    < (#[trigger] after[b]).0 by {
                    assert(before[a].0 < before[b].0);
                }
            }
        } else {
            let mut rows: Vec<usize> = Vec::new();
            rows.push(i);
            let ghost kept = rows@;
            proof {
                assert(at < groups@.len() ==> before[at as int].0 == groups@[at as int].0);
            }
            groups.insert(at, (shard, rows));
            proof {
                let after = groups_model(groups@);
                assert(after =~= before.insert(at as int, (shard, kept)));
                assert forall|a: int, b: int| 0 <= a < b < after.len() implies (#[trigger] after[a]).0
                    < (#[trigger] after[b]).0 by {
                    if b < at {
                        assert(before[a].0 < before[b].0);
                    } else if b == at {
                        assert(before[a].0 < shard);
                    } else if a < at {
                        assert(before[a].0 < before[b - 1].0);
                    } else if a == at {
                        if b - 1 > at {
                            assert(before[at as int].0 < before[b - 1].0);
                        }
                    } else {
                        assert(before[a - 1].0 < before[b - 1].0);
                    }
                }
                assert forall|k: int| 0 <= k < i implies #[trigger] shards@[k] != shard by {
                    let a = choose|a: int|
                        0 <= a < before.len() && (#[trigger] before[a]).0 == shards@[k];
                    if a > at {
                        assert(before[at as int].0 < before[a].0);
                    }
                }
                lemma_rows_on_absent(shards@, shard, i as nat);
                assert(kept =~= rows_on(shards@, shard, (i + 1) as nat));
                assert forall|a: int| 0 <= a < after.len() implies (#[trigger] after[a]).1
                    == rows_on(shards@, after[a].0, (i + 1) as nat) && after[a].1.len() > 0 by {
                    if a < at {
                        assert(before[a].0 < shard);
                        assert(before[a].1 == rows_on(shards@, before[a].0, i as nat));
                    } else if a > at {
                        assert(before[a - 1].1 == rows_on(shards@, before[a - 1].0, i as nat));
                        assert(after[at as int].0 < after[a].0);
                    }
                }
                assert forall|k: int| 0 <= k < i + 1 implies exists|a: int|
                    0 <= a < after.len() && (#[trigger] after[a]).0 == #[trigger] shards@[k] by {
                    if k < i {
                        let a = choose|a: int|
                            0 <= a < before.len() && (#[trigger] before[a]).0 == shards@[k];
                        if a < at {
                            assert(after[a].0 == shards@[k]);
                        } else {
                            assert(after[a + 1].0 == shards@[k]);
                        }
                    } else {
                        assert(after[at as int].0 == shards@[k]);
                    }
                }
            }
        }
        i = i + 1;
    }
    groups
}

// ---- where a statement runs --------------------------------------------------------------------

/// What a [`Route`] holds.
pub ghost enum RouteModel {
    One(u32),
    Split(Seq<(u32, Seq<char>)>),
    All,
    Refuse(Seq<char>),
    Passthrough,
}

pub open spec fn parts_model(parts: Seq<(u32, String)>) -> Seq<(u32, Seq<char>)> {
    parts.map_values(|p: (u32, String)| (p.0, p.1@))
}

impl View for Route {
    type V = RouteModel;

    open spec fn view(&self) -> RouteModel {
        match self {
            Route::One(shard) => RouteModel::One(*shard),
            Route::Split(parts) => RouteModel::Split(parts_model(parts@)),
            Route::All => RouteModel::All,
            Route::Refuse(m) => RouteModel::Refuse(m@),
            Route::Passthrough => RouteModel::Passthrough,
        }
    }
}

/// Whether `shard` is a shard that `routing` gives for `key`.
pub open spec fn routed<F: Fn(&Vec<u8>) -> u32>(routing: F, key: Seq<u8>, shard: u32) -> bool {
    exists|k: &Vec<u8>| k@ == key && #[trigger] call_ensures(routing, (k,), shard)
}

pub open spec fn insert_parts(
    insert: sqlparser::ast::Insert,
    groups: Seq<(u32, Seq<usize>)>,
) -> Seq<(u32, Seq<char>)> {
    groups.map_values(|g: (u32, Seq<usize>)| (g.0, insert_print_of(insert_of_rows(insert, g.1))))
}

/// Whether the insert made for each group holds the rows of the group and no other.
pub open spec fn parts_hold_rows(
    insert: sqlparser::ast::Insert,
    groups: Seq<(u32, Seq<usize>)>,
) -> bool {
    forall|a: int|
        0 <= a < groups.len() ==> writes_rows(
            insert_parts(insert, groups)[a].1,
            insert,
            (#[trigger] groups[a]).1,
        )
}

/// Whether `r` is where an insert runs whose rows go to `shards`: on the one shard they share, as
/// it stands, or divided, with one insert for each shard that holds exactly the shard's rows.
pub open spec fn rows_routed(shards: Seq<u32>, insert: sqlparser::ast::Insert, r: RouteModel) -> bool {
    exists|groups: Seq<(u32, Seq<usize>)>| #[trigger]
        divides(groups, shards, shards.len()) && (if groups.len() == 1 {
            r == RouteModel::One(groups[0].0)
        } else {
            r == RouteModel::Split(insert_parts(insert, groups)) && parts_hold_rows(insert, groups)
        })
}

/// Whether `r` is where a statement runs, where `lives` says which shard a key can be on. `insert`
/// is the statement where it is one.
pub open spec fn statement_routed(
    statement: Option<SqlModel>,
    insert: sqlparser::ast::Insert,
    keys: Map<Seq<char>, Seq<char>>,
    lives: spec_fn(Seq<u8>, u32) -> bool,
    r: RouteModel,
) -> bool {
    match statement {
        None => r == RouteModel::Passthrough,
        Some(s) => match key_route(s, keys) {
            KeyRouteModel::One(key) => r is One && lives(key, r->One_0),
            KeyRouteModel::Rows(found) => exists|shards: Seq<u32>|
                shards.len() == found.len() && (forall|i: int|
                    0 <= i < shards.len() ==> lives(found[i], #[trigger] shards[i]))
                    && #[trigger] rows_routed(shards, insert, r),
            KeyRouteModel::All => r == RouteModel::All,
            KeyRouteModel::Refuse(m) => r == RouteModel::Refuse(m),
            KeyRouteModel::Passthrough => r == RouteModel::Passthrough,
        },
    }
}

fn shards_of_keys<F: Fn(&Vec<u8>) -> u32>(found: &Vec<Vec<u8>>, routing: &F) -> (r: Vec<u32>)
    requires
        forall|k: &Vec<u8>| call_requires(*routing, (k,)),
    ensures
        r@.len() == found@.len(),
        forall|i: int|
            0 <= i < r@.len() ==> routed(*routing, byte_rows(found@)[i], #[trigger] r@[i]),
{
    let mut out: Vec<u32> = Vec::new();
    let mut i: usize = 0;
    while i < found.len()
        invariant
            i <= found@.len(),
            out@.len() == i,
            forall|k: &Vec<u8>| call_requires(*routing, (k,)),
            forall|a: int|
                0 <= a < i ==> routed(*routing, byte_rows(found@)[a], #[trigger] out@[a]),
        decreases found@.len() - i,
    {
        let key: &Vec<u8> = &found[i];
        let shard: u32 = routing(key);
        assert(key@ == byte_rows(found@)[i as int]);
        assert(routed(*routing, byte_rows(found@)[i as int], shard));
        out.push(shard);
        i = i + 1;
    }
    out
}

proof fn lemma_rows_on_bounded(shards: Seq<u32>, shard: u32, n: nat)
    requires
        n <= shards.len(),
        shards.len() <= usize::MAX,
    ensures
        forall|k: int| 0 <= k < rows_on(shards, shard, n).len() ==> (#[trigger] rows_on(
            shards,
            shard,
            n,
        )[k]) < shards.len(),
    decreases n,
{
    if n > 0 {
        lemma_rows_on_bounded(shards, shard, (n - 1) as nat);
        let before = rows_on(shards, shard, (n - 1) as nat);
        let all = rows_on(shards, shard, n);
        assert forall|k: int| 0 <= k < all.len() implies (#[trigger] all[k]) < shards.len() by {
            if k < before.len() {
                assert(all[k] == before[k]);
            }
        }
    }
}

#[verifier::loop_isolation(false)]
fn split_insert(insert: &sqlparser::ast::Insert, groups: &Vec<(u32, Vec<usize>)>, shards: &Vec<u32>) -> (r:
    Vec<(u32, String)>)
    requires
        divides(groups_model(groups@), shards@, shards@.len()),
        insert_of(*insert).source matches InsertSourceModel::Values(rows) && rows.len()
            == shards@.len(),
    ensures
        parts_model(r@) == insert_parts(*insert, groups_model(groups@)),
        parts_hold_rows(*insert, groups_model(groups@)),
{
    let ghost model = groups_model(groups@);
    let mut out: Vec<(u32, String)> = Vec::new();
    let mut i: usize = 0;
    assert(parts_model(out@) =~= insert_parts(*insert, model).take(0));
    while i < groups.len()
        invariant
            i <= groups@.len(),
            parts_model(out@) == insert_parts(*insert, model).take(i as int),
            forall|a: int|
                0 <= a < i ==> writes_rows(
                    insert_parts(*insert, model)[a].1,
                    *insert,
                    (#[trigger] model[a]).1,
                ),
        decreases groups@.len() - i,
    {
        assert(model[i as int] == (groups@[i as int].0, groups@[i as int].1@));
        proof {
            assert(shards@.len() == shards.len());
            lemma_rows_on_bounded(shards@, model[i as int].0, shards@.len());
        }
        let part = insert_text(insert, &groups[i].1);
        let ghost before = out@;
        let ghost rendered = part@;
        out.push((groups[i].0, part));
        proof {
            assert(parts_model(out@) =~= parts_model(before).push((model[i as int].0, rendered)));
            let all = insert_parts(*insert, model);
            assert(all.take(i as int + 1) =~= all.take(i as int).push(all[i as int]));
        }
        i = i + 1;
    }
    assert(insert_parts(*insert, model).take(groups@.len() as int) =~= insert_parts(*insert, model));
    out
}

proof fn lemma_row_keys_len(rows: Seq<Seq<TermModel>>, column: int, key: Seq<char>, n: nat)
    requires
        n <= rows.len(),
        row_keys(rows, column, key, n) is Ok,
    ensures
        row_keys(rows, column, key, n)->Ok_0.len() == n,
    decreases n,
{
    if n > 0 {
        lemma_row_keys_len(rows, column, key, (n - 1) as nat);
    }
}

/// Decide where a statement runs. `routing` gives the shard of a routing key.
pub fn route_statement_with<F: Fn(&Vec<u8>) -> u32>(
    sql: &str,
    keys: &ShardKeys,
    routing: &F,
) -> (r: Route)
    requires
        forall|k: &Vec<u8>| call_requires(*routing, (k,)),
    ensures
        statement_routed(
            lone_statement(sql@),
            lone_insert(sql@),
            keys@,
            |key: Seq<u8>, shard: u32| routed(*routing, key, shard),
            r@,
        ),
{
    let parsed = match parse_one(sql) {
        None => {
            return Route::Passthrough;
        },
        Some(p) => p,
    };
    let ghost model = parsed.model();
    let statement = parsed.read();
    match route_by_key(&statement, keys) {
        KeyRoute::Passthrough => Route::Passthrough,
        KeyRoute::All => Route::All,
        KeyRoute::Refuse(m) => Route::Refuse(m),
        KeyRoute::One(key) => {
            let shard: u32 = routing(&key);
            assert(routed(*routing, key@, shard));
            Route::One(shard)
        },
        KeyRoute::Rows(found) => {
            let shards = shards_of_keys(&found, routing);
            let groups = divide_rows(&shards);
            let ghost divided = groups_model(groups@);
            match parsed {
                Parsed::Insert(insert) => {
                    proof {
                        let im = insert_of(*insert);
                        assert(key_route(model, keys@) == insert_route(im, keys@));
                        let key = declared_key(im.table->0, keys@)->0;
                        let column = column_index(im.columns, key, 0)->0;
                        let rows = im.source->Values_0;
                        lemma_row_keys_len(rows, column, key, rows.len());
                    }
                    if groups.len() == 1 {
                        let shard: u32 = groups[0].0;
                        assert(divided[0].0 == shard);
                        assert(rows_routed(shards@, *insert, RouteModel::One(shard)));
                        Route::One(shard)
                    } else {
                        let parts = split_insert(&insert, &groups, &shards);
                        proof {
                            assert(rows_routed(
                                shards@,
                                *insert,
                                RouteModel::Split(parts_model(parts@)),
                            ));
                        }
                        Route::Split(parts)
                    }
                },
                _ => {
                    assert(false);
                    Route::Passthrough
                },
            }
        },
    }
}

/// Decide where a statement runs under modulo routing: a key lives on the shard of its `hash`
/// modulo the number of shards.
pub fn route_statement<H: Fn(&Vec<u8>) -> u64>(
    sql: &str,
    keys: &ShardKeys,
    shard_count: u32,
    hash: &H,
) -> (r: Route)
    requires
        shard_count > 0,
        forall|k: &Vec<u8>| call_requires(*hash, (k,)),
    ensures
        statement_routed(
            lone_statement(sql@),
            lone_insert(sql@),
            keys@,
            |key: Seq<u8>, shard: u32| routed_modulo(*hash, shard_count, key, shard),
            r@,
        ),
{
    let routing = |k: &Vec<u8>| -> (s: u32)
        requires
            shard_count > 0,
            forall|k: &Vec<u8>| call_requires(*hash, (k,)),
        ensures
            exists|h: u64| #[trigger] call_ensures(*hash, (k,), h) && s == h % (shard_count as u64),
        { (hash(k) % (shard_count as u64)) as u32 };
    let r = route_statement_with(sql, keys, &routing);
    proof {
        let found = |key: Seq<u8>, shard: u32| routed(routing, key, shard);
        let wanted = |key: Seq<u8>, shard: u32| routed_modulo(*hash, shard_count, key, shard);
        assert forall|key: Seq<u8>, shard: u32| #[trigger] found(key, shard) implies wanted(
            key,
            shard,
        ) by {
            let k = choose|k: &Vec<u8>| k@ == key && #[trigger] call_ensures(routing, (k,), shard);
            let h = choose|h: u64| #[trigger]
                call_ensures(*hash, (k,), h) && shard == h % (shard_count as u64);
            assert(hashed(*hash, k, h));
        }
        lemma_routing_weakens(lone_statement(sql@), lone_insert(sql@), keys@, found, wanted, r@);
    }
    r
}

pub open spec fn hashed<H: Fn(&Vec<u8>) -> u64>(hash: H, k: &Vec<u8>, h: u64) -> bool {
    call_ensures(hash, (k,), h)
}

/// Whether `shard` is a hash of `key` modulo the number of shards.
pub open spec fn routed_modulo<H: Fn(&Vec<u8>) -> u64>(
    hash: H,
    shard_count: u32,
    key: Seq<u8>,
    shard: u32,
) -> bool {
    exists|k: &Vec<u8>, h: u64|
        k@ == key && shard == h % (shard_count as u64) && #[trigger] hashed(hash, k, h)
}

proof fn lemma_routing_weakens(
    statement: Option<SqlModel>,
    insert: sqlparser::ast::Insert,
    keys: Map<Seq<char>, Seq<char>>,
    found: spec_fn(Seq<u8>, u32) -> bool,
    wanted: spec_fn(Seq<u8>, u32) -> bool,
    r: RouteModel,
)
    requires
        statement_routed(statement, insert, keys, found, r),
        forall|key: Seq<u8>, shard: u32| #[trigger] found(key, shard) ==> wanted(key, shard),
    ensures
        statement_routed(statement, insert, keys, wanted, r),
{
    if statement is Some {
        let s = statement->0;
        if let KeyRouteModel::Rows(rows) = key_route(s, keys) {
            let shards = choose|shards: Seq<u32>|
                shards.len() == rows.len() && (forall|i: int|
                    0 <= i < shards.len() ==> found(rows[i], #[trigger] shards[i]))
                    && #[trigger] rows_routed(shards, insert, r);
            assert forall|i: int| 0 <= i < shards.len() implies wanted(
                rows[i],
                #[trigger] shards[i],
            ) by {
                assert(found(rows[i], shards[i]));
            }
            assert(rows_routed(shards, insert, r));
        }
    }
}

// ---- keys of tables ----------------------------------------------------------------------------

/// The shard key that an `UPDATE` changes.
pub fn key_update(update: &UpdateTree, keys: &ShardKeys) -> (r: Option<String>)
    ensures
        text_option(r) == key_changed(update@, only_table(update@.target), keys@),
{
    match updated_shard_key(update, table_of(&update.target), keys) {
        Some(key) => Some(key.clone()),
        None => None,
    }
}

/// The shard key that an `UPDATE` changes, by its text.
pub fn shard_key_update(sql: &str, keys: &ShardKeys) -> (r: Option<String>)
    ensures
        text_option(r) == (match lone_statement(sql@) {
            Some(SqlModel::Update(update)) => key_changed(update, only_table(update.target), keys@),
            _ => None,
        }),
{
    match parse_one(sql) {
        None => None,
        Some(p) => match p.read() {
            Sql::Update(update) => key_update(&update, keys),
            _ => None,
        },
    }
}

/// The columns among the first `n` that are marked as a primary key.
pub open spec fn marked_columns(columns: Seq<ColumnModel>, n: nat) -> Seq<Seq<char>>
    decreases n,
{
    if n == 0 || n > columns.len() {
        Seq::empty()
    } else if columns[n - 1].rules.contains(ColumnRule::PrimaryKey) {
        marked_columns(columns, (n - 1) as nat).push(columns[n - 1].name)
    } else {
        marked_columns(columns, (n - 1) as nat)
    }
}

/// The terms of the first primary key among the constraints from `i` on.
pub open spec fn key_terms(constraints: Seq<ConstraintModel>, i: int) -> Option<Seq<TermModel>>
    decreases constraints.len() - i,
{
    if i < 0 || i >= constraints.len() {
        None
    } else {
        match constraints[i] {
            ConstraintModel::PrimaryKey(terms) => Some(terms),
            _ => key_terms(constraints, i + 1),
        }
    }
}

/// The single-column primary key of a table, as it is written: of the one column marked as such,
/// or of a constraint over one plain column.
pub open spec fn primary_key(create: CreateTableModel) -> Option<Seq<char>> {
    let marked = marked_columns(create.columns, create.columns.len());
    if marked.len() == 1 {
        Some(marked[0])
    } else if marked.len() > 1 {
        None
    } else {
        match key_terms(create.constraints, 0) {
            Some(terms) => if terms.len() == 1 {
                match terms[0].node {
                    NodeModel::Identifier(s) => Some(s),
                    _ => None,
                }
            } else {
                None
            },
            None => None,
        }
    }
}

/// The single-column primary key of a parsed `CREATE TABLE`.
pub fn table_primary_key(create: &TableTree) -> (r: Option<String>)
    ensures
        text_option(r) == primary_key(create@),
{
    let ghost columns = columns_model(create.columns@);
    let ghost constraints = constraints_model(create.constraints@);
    let mut marked: Vec<String> = Vec::new();
    let mut i: usize = 0;
    assert(views(marked@) =~= Seq::empty());
    while i < create.columns.len()
        invariant
            i <= create.columns@.len(),
            columns == columns_model(create.columns@),
            views(marked@) == marked_columns(columns, i as nat),
        decreases create.columns@.len() - i,
    {
        assert(columns[i as int] == create.columns@[i as int]@);
        if has_rule(&create.columns[i].rules, ColumnRule::PrimaryKey) {
            let ghost before = marked@;
            marked.push(create.columns[i].name.clone());
            assert(views(marked@) =~= views(before).push(columns[i as int].name));
        }
        i = i + 1;
    }
    assert(views(marked@).len() == marked@.len());
    if marked.len() == 1 {
        assert(views(marked@)[0] == marked@[0]@);
        return Some(marked[0].clone());
    }
    if marked.len() > 1 {
        return None;
    }
    let mut k: usize = 0;
    while k < create.constraints.len()
        invariant
            k <= create.constraints@.len(),
            constraints == constraints_model(create.constraints@),
            columns == columns_model(create.columns@),
            marked_columns(columns, columns.len()).len() == 0,
            key_terms(constraints, k as int) == key_terms(constraints, 0),
        decreases create.constraints@.len() - k,
    {
        assert(constraints[k as int] == create.constraints@[k as int]@);
        match &create.constraints[k] {
            Constraint::PrimaryKey(terms) => {
                assert(terms_model(terms@).len() == terms@.len());
                if terms.len() != 1 {
                    return None;
                }
                assert(terms_model(terms@)[0] == terms@[0].model());
                return match &terms[0].node {
                    Node::Identifier(s) => Some(s.clone()),
                    _ => None,
                };
            },
            _ => {},
        }
        k = k + 1;
    }
    None
}

/// The table and the column that a `CREATE TABLE` declares as a single-column primary key, which
/// is adopted as the shard key. Anything else gives `None`.
pub fn primary_key_of(sql: &str) -> (r: Option<(String, String)>)
    ensures
        match lone_statement(sql@) {
            Some(SqlModel::CreateTable(create)) => match primary_key(create) {
                Some(key) => r matches Some(p) && p.0@ == create.ident && p.1@ == key,
                None => r is None,
            },
            _ => r is None,
        },
{
    match parse_one(sql) {
        None => None,
        Some(p) => match p.read() {
            Sql::CreateTable(create) => match table_primary_key(&create) {
                Some(key) => Some((create.ident.clone(), key)),
                None => None,
            },
            _ => None,
        },
    }
}

// ---- laws --------------------------------------------------------------------------------------

/// An insert and a lookup agree on the shard of a value: a row whose shard-key column holds the
/// literal `value` has the very routing key of a condition that pins the column to `value`,
/// whichever side of the equality the column is on.
pub proof fn law_insert_and_lookup_agree(
    insert: InsertModel,
    row: Seq<TermModel>,
    condition: TermModel,
    column: TermModel,
    value: TermModel,
    key: Seq<char>,
    keys: Map<Seq<char>, Seq<char>>,
    unpinned: KeyRouteModel,
)
    requires
        insert.table is Some,
        declared_key(insert.table->0, keys) == Some(key),
        column_index(insert.columns, key, 0) is Some,
        insert.source == InsertSourceModel::Values(seq![row]),
        column_index(insert.columns, key, 0)->0 < row.len(),
        row[column_index(insert.columns, key, 0)->0] == value,
        routing_key(value) is Some,
        names_column(column, key),
        condition.node == NodeModel::Binary(Box::new(column), BinOp::Eq, Box::new(value))
            || (condition.node == NodeModel::Binary(Box::new(value), BinOp::Eq, Box::new(column))),
    ensures
        insert_route(insert, keys) == KeyRouteModel::Rows(seq![routing_key(value)->0]),
        point_route(insert.table, Some(condition), keys, unpinned) == KeyRouteModel::One(
            routing_key(value)->0,
        ),
{
    let rows = seq![row];
    let at = column_index(insert.columns, key, 0)->0;
    assert(row_keys(rows, at, key, 0) == Ok::<Seq<Seq<u8>>, Seq<char>>(Seq::empty()));
    assert(rows[0] == row);
    assert(row_keys(rows, at, key, 1) == Ok::<Seq<Seq<u8>>, Seq<char>>(
        Seq::<Seq<u8>>::empty().push(routing_key(value)->0),
    ));
    assert(Seq::<Seq<u8>>::empty().push(routing_key(value)->0) =~= seq![routing_key(value)->0]);
    assert(insert.columns.len() > 0);
    assert(!names_column(value, key));
}

/// Whether a condition pins a column to a literal: by an equality with it, on either side, or by
/// one such among conditions joined by `AND` of which no earlier one pins the column.
pub open spec fn pins(condition: TermModel, key: Seq<char>, value: TermModel) -> bool
    decreases condition,
{
    match condition.node {
        NodeModel::Nested(inner) => pins(*inner, key, value),
        NodeModel::Binary(left, BinOp::And, right) => pins(*left, key, value) || (pinned(
            *left,
            key,
        ) is None && pins(*right, key, value)),
        NodeModel::Binary(left, BinOp::Eq, right) => (names_column(*left, key) && *right == value)
            || (names_column(*right, key) && *left == value),
        _ => false,
    }
}

proof fn lemma_pins(condition: TermModel, key: Seq<char>, value: TermModel)
    requires
        pins(condition, key, value),
        literal_key(value) is Some,
    ensures
        pinned(condition, key) == literal_key(value),
    decreases condition,
{
    match condition.node {
        NodeModel::Nested(inner) => lemma_pins(*inner, key, value),
        NodeModel::Binary(left, BinOp::And, right) => {
            if pins(*left, key, value) {
                lemma_pins(*left, key, value);
            } else {
                lemma_pins(*right, key, value);
            }
        },
        NodeModel::Binary(left, BinOp::Eq, right) => {
            assert(!names_column(value, key));
        },
        _ => {},
    }
}

/// Whether every row of an insert holds the literal in the column of the shard key.
pub open spec fn every_row_holds(
    insert: InsertModel,
    key: Seq<char>,
    value: TermModel,
) -> bool {
    &&& column_index(insert.columns, key, 0) matches Some(at)
    &&& insert.source matches InsertSourceModel::Values(rows)
    &&& rows.len() > 0
    &&& forall|i: int|
        0 <= i < rows.len() ==> at < (#[trigger] rows[i]).len() && rows[i][at] == value
}

/// Whether a key lives on one shard.
pub open spec fn settled(lives: spec_fn(Seq<u8>, u32) -> bool) -> bool {
    forall|key: Seq<u8>, a: u32, b: u32| #[trigger]
        lives(key, a) && #[trigger] lives(key, b) ==> a == b
}

proof fn lemma_same_keys(
    rows: Seq<Seq<TermModel>>,
    column: int,
    key: Seq<char>,
    value: TermModel,
    n: nat,
)
    requires
        n <= rows.len(),
        routing_key(value) is Some,
        0 <= column,
        forall|i: int|
            0 <= i < rows.len() ==> column < (#[trigger] rows[i]).len() && rows[i][column] == value,
    ensures
        row_keys(rows, column, key, n) matches Ok(found) && found.len() == n && forall|i: int|
            0 <= i < n ==> #[trigger] found[i] == routing_key(value)->0,
    decreases n,
{
    if n > 0 {
        lemma_same_keys(rows, column, key, value, (n - 1) as nat);
        assert(rows[n - 1][column] == value);
    }
}

proof fn lemma_one_group(groups: Seq<(u32, Seq<usize>)>, shards: Seq<u32>, shard: u32)
    requires
        divides(groups, shards, shards.len()),
        0 < shards.len() <= usize::MAX,
        forall|i: int| 0 <= i < shards.len() ==> #[trigger] shards[i] == shard,
    ensures
        groups.len() == 1,
        groups[0].0 == shard,
{
    assert(shards[0] == shard);
    assert forall|a: int| 0 <= a < groups.len() implies (#[trigger] groups[a]).0 == shard by {
        let rows = rows_on(shards, groups[a].0, shards.len());
        assert(groups[a].1 == rows);
        let k = rows[0];
        lemma_rows_on(shards, groups[a].0, shards.len(), k);
        assert(rows.contains(k));
    }
    if groups.len() > 1 {
        assert(groups[0].0 < groups[1].0);
    }
}

/// Wherever a value is written, it is found: an insert whose rows hold a literal in the shard-key
/// column, and a `SELECT`, `UPDATE` or `DELETE` whose condition pins the column to the literal, run
/// on one and the same shard, where each key lives on one.
pub proof fn law_one_value_one_shard(
    insert: InsertModel,
    outside: sqlparser::ast::Insert,
    query: QueryModel,
    update: UpdateModel,
    delete: DeleteModel,
    table: Seq<char>,
    key: Seq<char>,
    value: TermModel,
    keys: Map<Seq<char>, Seq<char>>,
    lives: spec_fn(Seq<u8>, u32) -> bool,
    inserted: RouteModel,
    queried: RouteModel,
    updated: RouteModel,
    deleted: RouteModel,
)
    requires
        declared_key(table, keys) == Some(key),
        routing_key(value) is Some,
        settled(lives),
        insert.table == Some(table),
        every_row_holds(insert, key, value),
        insert.source->Values_0.len() <= usize::MAX,
        query.body matches BodyModel::Select(select) && target_table(select.from) == Some(table)
            && (select.selection matches Some(c) && pins(c, key, value)),
        !update.joined && only_table(update.target) == Some(table) && !assigns(update.targets, key)
            && (update.selection matches Some(c) && pins(c, key, value)),
        target_table(delete.from) == Some(table) && (delete.selection matches Some(c) && pins(
            c,
            key,
            value,
        )),
        statement_routed(Some(SqlModel::Insert(insert)), outside, keys, lives, inserted),
        statement_routed(Some(SqlModel::Query(query)), outside, keys, lives, queried),
        statement_routed(Some(SqlModel::Update(update)), outside, keys, lives, updated),
        statement_routed(Some(SqlModel::Delete(delete)), outside, keys, lives, deleted),
    ensures
        inserted is One,
        queried == inserted,
        updated == inserted,
        deleted == inserted,
        lives(routing_key(value)->0, inserted->One_0),
{
    let bytes = routing_key(value)->0;
    lemma_pins(query.body->Select_0.selection->0, key, value);
    lemma_pins(update.selection->0, key, value);
    lemma_pins(delete.selection->0, key, value);
    assert(queried is One && lives(bytes, queried->One_0));
    assert(updated is One && lives(bytes, updated->One_0));
    assert(deleted is One && lives(bytes, deleted->One_0));
    let rows = insert.source->Values_0;
    let at = column_index(insert.columns, key, 0)->0;
    lemma_column_index(insert.columns, key, 0);
    lemma_same_keys(rows, at, key, value, rows.len());
    let found = row_keys(rows, at, key, rows.len())->Ok_0;
    assert(insert.columns.len() > 0);
    assert(key_route(SqlModel::Insert(insert), keys) == KeyRouteModel::Rows(found));
    let shards = choose|shards: Seq<u32>|
        shards.len() == found.len() && (forall|i: int|
            0 <= i < shards.len() ==> lives(found[i], #[trigger] shards[i]))
            && #[trigger] rows_routed(shards, outside, inserted);
    let shard = queried->One_0;
    assert forall|i: int| 0 <= i < shards.len() implies #[trigger] shards[i] == shard by {
        assert(lives(found[i], shards[i]));
        assert(found[i] == bytes);
    }
    let groups = choose|groups: Seq<(u32, Seq<usize>)>| #[trigger]
        divides(groups, shards, shards.len()) && (if groups.len() == 1 {
            inserted == RouteModel::One(groups[0].0)
        } else {
            inserted == RouteModel::Split(insert_parts(outside, groups)) && parts_hold_rows(
                outside,
                groups,
            )
        });
    lemma_one_group(groups, shards, shard);
}

proof fn lemma_column_index(columns: Seq<Seq<char>>, key: Seq<char>, i: int)
    requires
        0 <= i,
    ensures
        column_index(columns, key, i) matches Some(at) ==> i <= at < columns.len(),
    decreases columns.len() - i,
{
    if i < columns.len() {
        lemma_column_index(columns, key, i + 1);
    }
}

/// A condition that is an `OR` pins nothing, whatever stands in it.
pub proof fn law_or_pins_nothing(condition: TermModel, key: Seq<char>)
    requires
        condition.node matches NodeModel::Binary(_, BinOp::Or, _),
    ensures
        pinned(condition, key) is None,
{
}

/// A statement on a sharded table whose condition does not pin the shard key, or that has none, is
/// left to the fan-out where it reads, and runs on every shard where it writes.
pub proof fn law_unpinned_statement(
    outside: sqlparser::ast::Insert,
    query: QueryModel,
    update: UpdateModel,
    delete: DeleteModel,
    condition: Option<TermModel>,
    table: Seq<char>,
    key: Seq<char>,
    keys: Map<Seq<char>, Seq<char>>,
    lives: spec_fn(Seq<u8>, u32) -> bool,
    queried: RouteModel,
    updated: RouteModel,
    deleted: RouteModel,
)
    requires
        declared_key(table, keys) == Some(key),
        condition matches Some(c) ==> pinned(c, key) is None,
        query.body matches BodyModel::Select(select) && target_table(select.from) == Some(table)
            && select.selection == condition,
        !update.joined && only_table(update.target) == Some(table) && !assigns(update.targets, key)
            && update.selection == condition,
        target_table(delete.from) == Some(table) && delete.selection == condition,
        statement_routed(Some(SqlModel::Query(query)), outside, keys, lives, queried),
        statement_routed(Some(SqlModel::Update(update)), outside, keys, lives, updated),
        statement_routed(Some(SqlModel::Delete(delete)), outside, keys, lives, deleted),
    ensures
        queried == RouteModel::Passthrough,
        updated == RouteModel::All,
        deleted == RouteModel::All,
{
}

/// Under modulo routing by a hash that gives one value for a key, a key lives on one shard.
pub proof fn law_modulo_routing_is_settled<H: Fn(&Vec<u8>) -> u64>(hash: H, shard_count: u32)
    requires
        forall|k: &Vec<u8>, j: &Vec<u8>, a: u64, b: u64|
            k@ == j@ && #[trigger] hashed(hash, k, a) && #[trigger] hashed(hash, j, b) ==> a == b,
    ensures
        settled(|key: Seq<u8>, shard: u32| routed_modulo(hash, shard_count, key, shard)),
{
    let lives = |key: Seq<u8>, shard: u32| routed_modulo(hash, shard_count, key, shard);
    assert forall|key: Seq<u8>, a: u32, b: u32| #[trigger] lives(key, a) && #[trigger] lives(
        key,
        b,
    ) implies a == b by {
        assert(routed_modulo(hash, shard_count, key, a));
        assert(routed_modulo(hash, shard_count, key, b));
    }
}

/// A write that does not pin the shard key runs on every shard, so no row is missed: a `DELETE`
/// from a sharded table, and an `UPDATE` of one that leaves its key alone, goes everywhere unless
/// its condition pins the key.
pub proof fn law_unpinned_write_goes_everywhere(
    delete: DeleteModel,
    update: UpdateModel,
    table: Seq<char>,
    key: Seq<char>,
    keys: Map<Seq<char>, Seq<char>>,
)
    requires
        declared_key(table, keys) == Some(key),
    ensures
        target_table(delete.from) == Some(table) && (delete.selection is None || pinned(
            delete.selection->0,
            key,
        ) is None) ==> key_route(SqlModel::Delete(delete), keys) == KeyRouteModel::All,
        !update.joined && only_table(update.target) == Some(table) && !assigns(update.targets, key)
            && (update.selection is None || pinned(update.selection->0, key) is None) ==> key_route(
            SqlModel::Update(update),
            keys,
        ) == KeyRouteModel::All,
{
}

/// A shard key is never updated: an `UPDATE` of a single table that assigns its declared key is
/// refused, whatever its condition.
pub proof fn law_shard_key_never_updated(update: UpdateModel, keys: Map<Seq<char>, Seq<char>>)
    requires
        !update.joined,
        only_table(update.target) is Some,
        declared_key(only_table(update.target)->0, keys) is Some,
        assigns(update.targets, declared_key(only_table(update.target)->0, keys)->0),
    ensures
        key_route(SqlModel::Update(update), keys) is Refuse,
{
}

proof fn lemma_rows_on(shards: Seq<u32>, shard: u32, n: nat, k: usize)
    requires
        n <= shards.len(),
        shards.len() <= usize::MAX,
    ensures
        rows_on(shards, shard, n).contains(k) <==> k < n && shards[k as int] == shard,
    decreases n,
{
    if n > 0 {
        let before = rows_on(shards, shard, (n - 1) as nat);
        lemma_rows_on(shards, shard, (n - 1) as nat, k);
        if shards[n - 1] == shard {
            let last = (n - 1) as usize;
            assert(rows_on(shards, shard, n) == before.push(last));
            if before.contains(k) {
                let i = choose|i: int| 0 <= i < before.len() && before[i] == k;
                assert(before.push(last)[i] == k);
            }
            assert(before.push(last)[before.len() as int] == last);
            if before.push(last).contains(k) && k != last {
                let i = choose|i: int| 0 <= i < before.push(last).len() && before.push(last)[i] == k;
                assert(before[i] == k);
            }
        }
    }
}

/// Every row of an `INSERT` goes to one shard, the one that its key lives on, and to no other.
pub proof fn law_every_row_goes_to_one_shard(
    groups: Seq<(u32, Seq<usize>)>,
    shards: Seq<u32>,
    row: usize,
)
    requires
        divides(groups, shards, shards.len()),
        shards.len() <= usize::MAX,
        row < shards.len(),
    ensures
        exists|a: int|
            0 <= a < groups.len() && (#[trigger] groups[a]).0 == shards[row as int]
                && groups[a].1.contains(row),
        forall|a: int|
            0 <= a < groups.len() && (#[trigger] groups[a]).1.contains(row) ==> groups[a].0
                == shards[row as int],
{
    let a = choose|a: int|
        0 <= a < groups.len() && (#[trigger] groups[a]).0 == shards[row as int];
    lemma_rows_on(shards, groups[a].0, shards.len(), row);
    assert(groups[a].1.contains(row));
    assert forall|b: int|
        0 <= b < groups.len() && (#[trigger] groups[b]).1.contains(row) implies groups[b].0
        == shards[row as int] by {
        lemma_rows_on(shards, groups[b].0, shards.len(), row);
    }
}

} // verus!
