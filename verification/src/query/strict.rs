//! Strict mode: refuse the statements whose outcome would otherwise be chosen for the user.
//!
//! `LIMIT` without `ORDER BY` is the clearest case: the rows kept are the same at every shard
//! count, but only because an order was picked on the user's behalf. Strict mode only ever shrinks
//! the set of accepted statements: it never changes an answer.

use vstd::prelude::*;

use super::ddl::refusal_of;
use super::plan::{Plan, ShardKeys};
use super::reader::{lone_statement, parse_one};
use super::syntax::{
    Body, BodyModel, FromModel, QueryModel, QueryTree, SelectTree, Source, SourceModel, Sql,
    SqlModel,
};
use crate::shard::classes::{TableClass, TableClasses};
use crate::text::{
    bare_name, chars_of, last_part, lookup, lower, piece, same, to_lower,
};

verus! {

/// `char::is_alphanumeric`: a Unicode letter or number. The name is for what it says of a
/// character.
pub uninterp spec fn alphanumeric(c: char) -> bool;

/// `char::is_alphanumeric`, which also counts every ASCII letter and digit. Nothing is said of
/// other characters.
#[verifier::external_body]
fn is_alphanumeric(c: char) -> (r: bool)
    ensures
        r == alphanumeric(c),
        ('a' <= c && c <= 'z') || ('A' <= c && c <= 'Z') || ('0' <= c && c <= '9') ==> r,
{
    c.is_alphanumeric()
}

/// Whether a character can stand in a word.
pub open spec fn word_char(c: char) -> bool {
    alphanumeric(c) || c == '_'
}

/// Whether `s[from..to]` is a whole word: no character of it splits words, and it is bounded by
/// the ends of the text or by characters that do.
pub open spec fn whole_word(s: Seq<char>, from: int, to: int) -> bool {
    &&& 0 <= from <= to <= s.len()
    &&& forall|i: int| from <= i < to ==> word_char(#[trigger] s[i])
    &&& from > 0 ==> !word_char(s[from - 1])
    &&& to < s.len() ==> !word_char(s[to])
}

/// Whether a text holds `word` as a whole word.
pub open spec fn has_word(s: Seq<char>, word: Seq<char>) -> bool {
    exists|from: int, to: int| #[trigger]
        whole_word(s, from, to) && s.subrange(from, to) == word
}

/// Whether a rendered `ORDER BY` names `column` as a whole word.
fn mentions(rendered: &str, column: &str) -> (r: bool)
    ensures
        r == has_word(rendered@, lower(column@)),
{
    let wanted = to_lower(column);
    let chars = chars_of(rendered);
    let ghost s = chars@;
    let mut start: usize = 0;
    let mut i: usize = 0;
    loop
        invariant
            start <= i <= s.len(),
            s == chars@,
            s == rendered@,
            wanted@ == lower(column@),
            start > 0 ==> !word_char(s[start as int - 1]),
            forall|k: int| start <= k < i ==> word_char(#[trigger] s[k]),
            forall|from: int, to: int| #[trigger]
                whole_word(s, from, to) && from < start ==> s.subrange(from, to) != wanted@,
        decreases s.len() - i + (if i == s.len() {
            0int
        } else {
            1int
        }),
    {
        let split = if i == chars.len() {
            true
        } else {
            !is_alphanumeric(chars[i]) && chars[i] != '_'
        };
        if split {
            let word = piece(&chars, start, i);
            assert(whole_word(s, start as int, i as int));
            if same(word.as_str(), wanted.as_str()) {
                return true;
            }
            proof {
                assert forall|from: int, to: int| #[trigger]
                    whole_word(s, from, to) && from < i + 1 implies s.subrange(from, to)
                    != wanted@ by {
                    if from >= start {
                        if from > start {
                            assert(!word_char(s[from - 1]));
                            assert(from - 1 >= i);
                        }
                        if from == start {
                            if to < i {
                                assert(!word_char(s[to]));
                            }
                            if to > i {
                                assert(word_char(s[i as int]));
                            }
                            assert(to == i);
                        }
                    }
                }
            }
            if i == chars.len() {
                assert forall|from: int, to: int| #[trigger]
                    whole_word(s, from, to) implies s.subrange(from, to) != wanted@ by {
                    assert(from < i + 1);
                }
                return false;
            }
            start = i + 1;
        }
        i = i + 1;
    }
}

pub open spec fn lone_source(from: Seq<FromModel>) -> Option<Seq<char>> {
    if from.len() == 1 && from[0].joins.len() == 0 {
        match from[0].source {
            SourceModel::Table { name, .. } => Some(bare_name(name)),
            _ => None,
        }
    } else {
        None
    }
}

fn single_table(select: &SelectTree) -> (r: Option<String>)
    ensures
        match r {
            Some(s) => lone_source(select@.from) == Some(s@),
            None => lone_source(select@.from) is None,
        },
{
    if select.from.len() != 1 {
        return None;
    }
    assert(select@.from[0] == select.from@[0]@);
    if select.from[0].joins.len() != 0 {
        return None;
    }
    match &select.from[0].source {
        Source::Table { name, .. } => Some(last_part(name.as_str())),
        _ => None,
    }
}

pub open spec fn unordered_limit_refusal() -> Seq<char> {
    "strict mode: LIMIT without ORDER BY does not say which rows to keep, so shardlite orders by the shard key to make the answer stable. Add an ORDER BY so the choice is yours."@
}

pub open spec fn tied_order_refusal(key: Seq<char>) -> Seq<char> {
    "strict mode: ORDER BY with a LIMIT must be a total order, or which of two tied rows survives the limit is shardlite's choice rather than yours. Add the shard key `"@
        + key + "` as the last ORDER BY term."@
}

pub open spec fn undeclared_refusal(table: Seq<char>) -> Seq<char> {
    "strict mode: `"@ + table
        + "` has no declared table class, so shardlite would default it to sharded. Declare it explicitly as sharded or global before creating it, so the constraints it may carry are a decision rather than a default."@
}

pub open spec fn central_refusal() -> Seq<char> {
    "strict mode: this query cannot be pushed down to the shards, so shardlite would materialise its sources on the coordinator and run it there. That is correct but holds the whole result set in memory on one machine. Restructure the query, or run without strict mode if the cost is acceptable."@
}

/// Why strict mode refuses a query: it has a `LIMIT` and no `ORDER BY`, or the `ORDER BY` of its
/// one table does not name the declared shard key.
pub open spec fn query_refusal(query: QueryModel, keys: Map<Seq<char>, Seq<char>>) -> Option<
    Seq<char>,
> {
    if query.limit is None {
        None
    } else {
        match query.order_by {
            None => Some(unordered_limit_refusal()),
            Some(order) => match query.body {
                BodyModel::Select(select) => match lone_source(select.from) {
                    None => None,
                    Some(table) => match lookup(keys, lower(table)) {
                        None => None,
                        Some(key) => if has_word(lower(order.text), lower(key)) {
                            None
                        } else {
                            Some(tied_order_refusal(key))
                        },
                    },
                },
                _ => None,
            },
        }
    }
}

/// Check a parsed query against the strict rules.
pub fn check_query(query: &QueryTree, keys: &ShardKeys) -> (r: Result<(), String>)
    ensures
        refusal_of(r) == query_refusal(query@, keys@),
{
    if query.limit.is_none() {
        return Ok(());
    }
    let order = match &query.order_by {
        None => {
            return Err("strict mode: LIMIT without ORDER BY does not say which rows to keep, so shardlite orders by the shard key to make the answer stable. Add an ORDER BY so the choice is yours.".to_owned());
        },
        Some(order) => order,
    };
    let select = match &query.body {
        Body::Select(select) => select,
        _ => {
            return Ok(());
        },
    };
    let table = match single_table(select) {
        None => {
            return Ok(());
        },
        Some(table) => to_lower(table.as_str()),
    };
    let key = match keys.get(table.as_str()) {
        None => {
            return Ok(());
        },
        Some(key) => key,
    };
    let rendered = to_lower(order.text.as_str());
    if mentions(rendered.as_str(), key.as_str()) {
        return Ok(());
    }
    let mut out = "strict mode: ORDER BY with a LIMIT must be a total order, or which of two tied rows survives the limit is shardlite's choice rather than yours. Add the shard key `".to_owned();
    out.append(key.as_str());
    out.append("` as the last ORDER BY term.");
    Err(out)
}

/// Why strict mode refuses a statement: a query as [`query_refusal`] says, a `CREATE TABLE` of a
/// table without a declared class.
pub open spec fn statement_refusal(
    statement: SqlModel,
    keys: Map<Seq<char>, Seq<char>>,
    classes: Map<Seq<char>, TableClass>,
) -> Option<Seq<char>> {
    match statement {
        SqlModel::CreateTable(create) => if classes.dom().contains(bare_name(create.name)) {
            None
        } else {
            Some(undeclared_refusal(bare_name(create.name)))
        },
        SqlModel::Query(query) => query_refusal(query, keys),
        _ => None,
    }
}

/// Check a parsed statement against the strict rules.
pub fn check_statement(statement: &Sql, keys: &ShardKeys, classes: &TableClasses) -> (r: Result<
    (),
    String,
>)
    ensures
        refusal_of(r) == statement_refusal(statement@, keys@, classes@),
{
    match statement {
        Sql::CreateTable(create) => {
            let table = last_part(create.name.as_str());
            if classes.contains_key(table.as_str()) {
                return Ok(());
            }
            let mut out = "strict mode: `".to_owned();
            out.append(table.as_str());
            out.append("` has no declared table class, so shardlite would default it to sharded. Declare it explicitly as sharded or global before creating it, so the constraints it may carry are a decision rather than a default.");
            Err(out)
        },
        Sql::Query(query) => check_query(query, keys),
        _ => Ok(()),
    }
}

/// Check `sql` against the strict rules. A text that does not parse as one statement is let
/// through.
pub fn check(sql: &str, keys: &ShardKeys, classes: &TableClasses) -> (r: Result<(), String>)
    ensures
        refusal_of(r) == (match lone_statement(sql@) {
            Some(statement) => statement_refusal(statement, keys@, classes@),
            None => None,
        }),
{
    match parse_one(sql) {
        Some(p) => check_statement(&p.read(), keys, classes),
        None => Ok(()),
    }
}

/// Strict mode refuses a plan that materialises its sources on the coordinator: correct, but it
/// holds the whole result set in memory on one machine.
pub fn check_plan(plan: &Plan) -> (r: Result<(), String>)
    ensures
        refusal_of(r) == (if plan@ is Central {
            Some(central_refusal())
        } else {
            None
        }),
{
    match plan {
        Plan::Central(_) => Err("strict mode: this query cannot be pushed down to the shards, so shardlite would materialise its sources on the coordinator and run it there. That is correct but holds the whole result set in memory on one machine. Restructure the query, or run without strict mode if the cost is acceptable.".to_owned()),
        _ => Ok(()),
    }
}

} // verus!
