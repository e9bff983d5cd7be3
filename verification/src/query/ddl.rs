//! The `CREATE TABLE` constraint gate.
//!
//! A `UNIQUE` index on a column that is not the shard key cannot be enforced across shards: two
//! rows with the same value go to different files, and neither sees the other. So the decision is
//! taken once, at `CREATE TABLE`, against the rules for many shards, however many exist right now:
//! growing the cluster can never change what a constraint does. A refusal names the two ways out:
//! put the shard key in the constraint, or declare the table global.

use vstd::prelude::*;

use super::reader::{lone_statement, parse_one};
use super::syntax::{
    columns_model, constraints_model, terms_model, Column, ColumnModel, ColumnRule, Constraint, ConstraintModel,
    CreateTableModel, Node, NodeModel, Sql, SqlModel, TableTree, Term, TermModel,
};
use crate::shard::classes::{class_of, declared_class, TableClass, TableClasses};
use crate::text::{
    bare_name, contains_text, join, join_with, last_part, lower, same, to_lower, views,
};

verus! {

/// The column that an index term names, in lower case; `None` for an expression.
pub open spec fn indexed_column(t: TermModel) -> Option<Seq<char>> {
    match t.node {
        NodeModel::Identifier(s) => Some(lower(s)),
        NodeModel::Compound(parts) => if parts.len() > 0 {
            Some(lower(parts.last()))
        } else {
            None
        },
        _ => None,
    }
}

fn column_name(t: &Term) -> (r: Option<String>)
    ensures
        match r {
            Some(s) => indexed_column(t.model()) == Some(s@),
            None => indexed_column(t.model()) is None,
        },
{
    match &t.node {
        Node::Identifier(s) => Some(to_lower(s.as_str())),
        Node::Compound(parts) => if parts.len() > 0 {
            assert(views(parts@).last() == parts@.last()@);
            Some(to_lower(parts[parts.len() - 1].as_str()))
        } else {
            None
        },
        _ => None,
    }
}

/// The first column, from `i` on, that is marked as a primary key, in lower case.
pub open spec fn marked_key(columns: Seq<ColumnModel>, i: int) -> Option<Seq<char>>
    decreases columns.len() - i,
{
    if i < 0 || i >= columns.len() {
        None
    } else if columns[i].rules.contains(ColumnRule::PrimaryKey) {
        Some(lower(columns[i].name))
    } else {
        marked_key(columns, i + 1)
    }
}

/// The column of the first single-column primary key among the constraints from `i` on.
pub open spec fn constraint_key(constraints: Seq<ConstraintModel>, i: int) -> Option<Seq<char>>
    decreases constraints.len() - i,
{
    if i < 0 || i >= constraints.len() {
        None
    } else {
        match constraints[i] {
            ConstraintModel::PrimaryKey(terms) => if terms.len() == 1 {
                indexed_column(terms[0])
            } else {
                constraint_key(constraints, i + 1)
            },
            _ => constraint_key(constraints, i + 1),
        }
    }
}

/// The column that a table is sharded by: its single-column primary key.
pub open spec fn shard_key_of(create: CreateTableModel) -> Option<Seq<char>> {
    match marked_key(create.columns, 0) {
        Some(key) => Some(key),
        None => constraint_key(create.constraints, 0),
    }
}

pub(crate) fn has_rule(rules: &Vec<ColumnRule>, rule: ColumnRule) -> (r: bool)
    ensures
        r == rules@.contains(rule),
{
    let mut i: usize = 0;
    while i < rules.len()
        invariant
            i <= rules@.len(),
            forall|k: int| 0 <= k < i ==> rules@[k] != rule,
        decreases rules@.len() - i,
    {
        if rules[i] == rule {
            assert(rules@[i as int] == rule);
            return true;
        }
        i = i + 1;
    }
    false
}

fn single_column_primary_key(create: &TableTree) -> (r: Option<String>)
    ensures
        match r {
            Some(s) => shard_key_of(create@) == Some(s@),
            None => shard_key_of(create@) is None,
        },
{
    let ghost columns = columns_model(create.columns@);
    let ghost constraints = constraints_model(create.constraints@);
    let mut i: usize = 0;
    while i < create.columns.len()
        invariant
            i <= create.columns@.len(),
            columns == columns_model(create.columns@),
            marked_key(columns, i as int) == marked_key(columns, 0),
        decreases create.columns@.len() - i,
    {
        assert(columns[i as int] == create.columns@[i as int]@);
        if has_rule(&create.columns[i].rules, ColumnRule::PrimaryKey) {
            return Some(to_lower(create.columns[i].name.as_str()));
        }
        i = i + 1;
    }
    let mut k: usize = 0;
    while k < create.constraints.len()
        invariant
            k <= create.constraints@.len(),
            columns == columns_model(create.columns@),
            constraints == constraints_model(create.constraints@),
            marked_key(columns, 0) is None,
            constraint_key(constraints, k as int) == constraint_key(constraints, 0),
        decreases create.constraints@.len() - k,
    {
        assert(constraints[k as int] == create.constraints@[k as int]@);
        match &create.constraints[k] {
            Constraint::PrimaryKey(terms) => {
                assert(terms_model(terms@).len() == terms@.len());
                if terms.len() == 1 {
                    assert(terms_model(terms@)[0] == terms@[0].model());
                    return column_name(&terms[0]);
                }
            },
            _ => {},
        }
        k = k + 1;
    }
    None
}

pub open spec fn unique_refusal(table: Seq<char>, columns: Seq<Seq<char>>, key: Option<Seq<char>>) -> Seq<
    char,
> {
    "UNIQUE on ("@ + join_with(columns, ", "@)
        + ") cannot be enforced on a sharded table: rows with the same value hash to different shards, so no single SQLite file sees both and the constraint would hold or not hold depending on where the values landed. "@
        + (match key {
        Some(k) => "the shard key of `"@ + table + "` is `"@ + k + "`"@,
        None => "`"@ + table + "` has no shard key, because its PRIMARY KEY is not a single column"@,
    }) + ". Either include the shard key in the constraint, or declare `"@ + table
        + "` global so all its rows live on one shard."@
}

fn unique_message(table: &str, columns: &Vec<String>, key: &Option<String>) -> (r: String)
    ensures
        r@ == unique_refusal(
            table@,
            views(columns@),
            match *key {
                Some(k) => Some(k@),
                None => None,
            },
        ),
{
    let list = join(columns, ", ");
    let mut out = "UNIQUE on (".to_owned();
    out.append(list.as_str());
    out.append(") cannot be enforced on a sharded table: rows with the same value hash to different shards, so no single SQLite file sees both and the constraint would hold or not hold depending on where the values landed. ");
    let mut reason: String;
    match key {
        Some(k) => {
            reason = "the shard key of `".to_owned();
            reason.append(table);
            reason.append("` is `");
            reason.append(k.as_str());
            reason.append("`");
        },
        None => {
            reason = "`".to_owned();
            reason.append(table);
            reason.append("` has no shard key, because its PRIMARY KEY is not a single column");
        },
    }
    out.append(reason.as_str());
    out.append(". Either include the shard key in the constraint, or declare `");
    out.append(table);
    out.append("` global so all its rows live on one shard.");
    out
}

pub open spec fn foreign_key_refusal(table: Seq<char>) -> Seq<char> {
    "a FOREIGN KEY cannot be enforced on a sharded table: the check runs on the shard holding the referencing row, which does not hold the referenced row, so a valid reference is rejected. Declare `"@
        + table
        + "` and the table it references global so both live on one shard, or drop the constraint and enforce it in the application."@
}

fn foreign_key_message(table: &str) -> (r: String)
    ensures
        r@ == foreign_key_refusal(table@),
{
    let mut out = "a FOREIGN KEY cannot be enforced on a sharded table: the check runs on the shard holding the referencing row, which does not hold the referenced row, so a valid reference is rejected. Declare `".to_owned();
    out.append(table);
    out.append("` and the table it references global so both live on one shard, or drop the constraint and enforce it in the application.");
    out
}

/// The refusal of a column's rules from `i` on, in the order in which they are written.
pub open spec fn rules_refusal(
    table: Seq<char>,
    name: Seq<char>,
    rules: Seq<ColumnRule>,
    key: Option<Seq<char>>,
    i: int,
) -> Option<Seq<char>>
    decreases rules.len() - i,
{
    if i < 0 || i >= rules.len() {
        None
    } else if rules[i] == ColumnRule::Unique && key != Some(lower(name)) {
        Some(unique_refusal(table, seq![lower(name)], key))
    } else if rules[i] == ColumnRule::ForeignKey {
        Some(foreign_key_refusal(table))
    } else {
        rules_refusal(table, name, rules, key, i + 1)
    }
}

/// The refusal of the columns from `i` on.
pub open spec fn columns_refusal(
    table: Seq<char>,
    columns: Seq<ColumnModel>,
    key: Option<Seq<char>>,
    i: int,
) -> Option<Seq<char>>
    decreases columns.len() - i,
{
    if i < 0 || i >= columns.len() {
        None
    } else {
        match rules_refusal(table, columns[i].name, columns[i].rules, key, 0) {
            Some(m) => Some(m),
            None => columns_refusal(table, columns, key, i + 1),
        }
    }
}

/// The columns that the first `n` terms of an index name, leaving out expressions.
pub open spec fn indexed_columns(terms: Seq<TermModel>, n: nat) -> Seq<Seq<char>>
    decreases n,
{
    if n == 0 || n > terms.len() {
        Seq::empty()
    } else {
        match indexed_column(terms[n - 1]) {
            Some(c) => indexed_columns(terms, (n - 1) as nat).push(c),
            None => indexed_columns(terms, (n - 1) as nat),
        }
    }
}

/// The refusal of the constraints from `i` on. A `UNIQUE` constraint is kept where one of its
/// columns is the shard key.
pub open spec fn constraints_refusal(
    table: Seq<char>,
    constraints: Seq<ConstraintModel>,
    key: Option<Seq<char>>,
    i: int,
) -> Option<Seq<char>>
    decreases constraints.len() - i,
{
    if i < 0 || i >= constraints.len() {
        None
    } else {
        match constraints[i] {
            ConstraintModel::Unique(terms) => {
                let columns = indexed_columns(terms, terms.len());
                if key is Some && columns.contains(key->0) {
                    constraints_refusal(table, constraints, key, i + 1)
                } else {
                    Some(unique_refusal(table, columns, key))
                }
            },
            ConstraintModel::ForeignKey => Some(foreign_key_refusal(table)),
            _ => constraints_refusal(table, constraints, key, i + 1),
        }
    }
}

/// Why a `CREATE TABLE` cannot stand on many shards: `None` for a global table, and for a sharded
/// one whose constraints each shard can enforce alone.
pub open spec fn create_refusal(
    create: CreateTableModel,
    classes: Map<Seq<char>, TableClass>,
) -> Option<Seq<char>> {
    let table = bare_name(create.name);
    if declared_class(classes, table) == TableClass::Global {
        None
    } else {
        let key = shard_key_of(create);
        match columns_refusal(table, create.columns, key, 0) {
            Some(m) => Some(m),
            None => constraints_refusal(table, create.constraints, key, 0),
        }
    }
}

pub open spec fn key_option(key: Option<String>) -> Option<Seq<char>> {
    match key {
        Some(k) => Some(k@),
        None => None,
    }
}

pub open spec fn refusal_of(r: Result<(), String>) -> Option<Seq<char>> {
    match r {
        Ok(_) => None,
        Err(m) => Some(m@),
    }
}

fn is_key(key: &Option<String>, name: &str) -> (r: bool)
    ensures
        r == (key_option(*key) == Some(name@)),
{
    match key {
        Some(k) => same(k.as_str(), name),
        None => false,
    }
}

fn check_rules(table: &str, column: &Column, key: &Option<String>) -> (r: Result<(), String>)
    ensures
        refusal_of(r) == rules_refusal(
            table@,
            column@.name,
            column@.rules,
            key_option(*key),
            0,
        ),
{
    let name = to_lower(column.name.as_str());
    let rules = &column.rules;
    let mut i: usize = 0;
    while i < rules.len()
        invariant
            i <= rules@.len(),
            name@ == lower(column@.name),
            *rules == column.rules,
            rules_refusal(table@, column@.name, rules@, key_option(*key), i as int)
                == rules_refusal(table@, column@.name, column@.rules, key_option(*key), 0),
        decreases rules@.len() - i,
    {
        if rules[i] == ColumnRule::Unique {
            if !is_key(key, name.as_str()) {
                let mut one: Vec<String> = Vec::new();
                one.push(name);
                assert(views(one@) =~= seq![lower(column@.name)]);
                return Err(unique_message(table, &one, key));
            }
        } else if rules[i] == ColumnRule::ForeignKey {
            return Err(foreign_key_message(table));
        }
        i = i + 1;
    }
    Ok(())
}

fn index_columns(terms: &Vec<Term>) -> (r: Vec<String>)
    ensures
        views(r@) == indexed_columns(terms_model(terms@), terms@.len()),
{
    let ghost model = terms_model(terms@);
    let mut out: Vec<String> = Vec::new();
    let mut i: usize = 0;
    assert(views(out@) =~= Seq::empty());
    while i < terms.len()
        invariant
            i <= terms@.len(),
            model == terms_model(terms@),
            views(out@) == indexed_columns(model, i as nat),
        decreases terms@.len() - i,
    {
        assert(model[i as int] == terms@[i as int].model());
        match column_name(&terms[i]) {
            Some(c) => {
                let ghost before = out@;
                let ghost name = c@;
                out.push(c);
                assert(views(out@) =~= views(before).push(name));
            },
            None => {},
        }
        i = i + 1;
    }
    out
}

fn covers(columns: &Vec<String>, key: &Option<String>) -> (r: bool)
    ensures
        r == (key_option(*key) is Some && views(columns@).contains(key_option(*key)->0)),
{
    match key {
        None => false,
        Some(k) => contains_text(columns, k.as_str()),
    }
}

/// Check a parsed `CREATE TABLE` against the rules that must hold at any shard count.
#[verifier::loop_isolation(false)]
pub fn check_create(create: &TableTree, classes: &TableClasses) -> (r: Result<(), String>)
    ensures
        refusal_of(r) == create_refusal(create@, classes@),
{
    let table = last_part(create.name.as_str());
    if class_of(classes, table.as_str()) == TableClass::Global {
        return Ok(());
    }
    let key = single_column_primary_key(create);
    let ghost columns = columns_model(create.columns@);
    let ghost constraints = constraints_model(create.constraints@);
    let mut i: usize = 0;
    while i < create.columns.len()
        invariant
            i <= create.columns@.len(),
            columns_refusal(table@, columns, key_option(key), i as int) == columns_refusal(
                table@,
                columns,
                key_option(key),
                0,
            ),
        decreases create.columns@.len() - i,
    {
        assert(columns[i as int] == create.columns@[i as int]@);
        if let Err(m) = check_rules(table.as_str(), &create.columns[i], &key) {
            return Err(m);
        }
        i = i + 1;
    }
    let mut k: usize = 0;
    while k < create.constraints.len()
        invariant
            k <= create.constraints@.len(),
            constraints_refusal(table@, constraints, key_option(key), k as int)
                == constraints_refusal(table@, constraints, key_option(key), 0),
        decreases create.constraints@.len() - k,
    {
        assert(constraints[k as int] == create.constraints@[k as int]@);
        match &create.constraints[k] {
            Constraint::Unique(terms) => {
                let list = index_columns(terms);
                assert(terms_model(terms@).len() == terms@.len());
                if !covers(&list, &key) {
                    return Err(unique_message(table.as_str(), &list, &key));
                }
            },
            Constraint::ForeignKey => {
                return Err(foreign_key_message(table.as_str()));
            },
            _ => {},
        }
        k = k + 1;
    }
    Ok(())
}

/// Check a `CREATE TABLE` against the rules that must hold at any shard count. Anything else, and
/// a text that does not parse as one statement, is let through: SQLite reports it.
pub fn check_create_table(sql: &str, classes: &TableClasses) -> (r: Result<(), String>)
    ensures
        refusal_of(r) == (match lone_statement(sql@) {
            Some(SqlModel::CreateTable(create)) => create_refusal(create, classes@),
            _ => None,
        }),
{
    match parse_one(sql) {
        Some(p) => match p.read() {
            Sql::CreateTable(create) => check_create(&create, classes),
            _ => Ok(()),
        },
        None => Ok(()),
    }
}

} // verus!
