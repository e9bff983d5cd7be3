//! What a schema may promise on many shards, and what strict mode asks, in plain terms.

use vstd::prelude::*;

use super::ddl::{
    columns_refusal, constraint_key, constraints_refusal, create_refusal, indexed_column,
    indexed_columns, marked_key, rules_refusal, shard_key_of,
};
use super::strict::{lone_source, query_refusal, statement_refusal, whole_word, word_char};
use super::syntax::{
    BodyModel, ColumnModel, ColumnRule, ConstraintModel, CreateTableModel, FromModel, NodeModel,
    OrderByModel, QueryModel, SelectModel, SourceModel, SqlModel, TermModel,
};
use crate::shard::classes::{declared_class, TableClass};
use crate::text::{
    after_last_dot, bare_name, lower, trim_quotes_end, trim_quotes_start,
};

verus! {

// ---- constraints -------------------------------------------------------------------------------

/// Whether every shard can enforce the rules of a column alone: none refers to another table, and
/// only the shard key is unique.
pub open spec fn column_holds(c: ColumnModel, key: Option<Seq<char>>) -> bool {
    !c.rules.contains(ColumnRule::ForeignKey) && (c.rules.contains(ColumnRule::Unique) ==> key
        == Some(lower(c.name)))
}

/// Whether a term of an index is a column, by its name in any case.
pub open spec fn is_the_column(t: TermModel, name: Seq<char>) -> bool {
    match t.node {
        NodeModel::Identifier(s) => lower(s) == name,
        NodeModel::Compound(parts) => parts.len() > 0 && lower(parts.last()) == name,
        _ => false,
    }
}

/// Whether every shard can enforce a constraint alone: it refers to no other table, and what is
/// unique is so together with the shard key.
pub open spec fn constraint_holds(c: ConstraintModel, key: Option<Seq<char>>) -> bool {
    match c {
        ConstraintModel::ForeignKey => false,
        ConstraintModel::Unique(terms) => key is Some && exists|i: int|
            0 <= i < terms.len() && is_the_column(#[trigger] terms[i], key->0),
        _ => true,
    }
}

proof fn lemma_rules(
    table: Seq<char>,
    name: Seq<char>,
    rules: Seq<ColumnRule>,
    key: Option<Seq<char>>,
    i: int,
)
    requires
        0 <= i,
    ensures
        rules_refusal(table, name, rules, key, i) is None <==> forall|k: int|
            i <= k < rules.len() ==> (#[trigger] rules[k]) != ColumnRule::ForeignKey && (rules[k]
                == ColumnRule::Unique ==> key == Some(lower(name))),
    decreases rules.len() - i,
{
    if i < rules.len() {
        lemma_rules(table, name, rules, key, i + 1);
        assert(rules[i] == rules[i]);
    }
}

proof fn lemma_column(table: Seq<char>, c: ColumnModel, key: Option<Seq<char>>)
    ensures
        rules_refusal(table, c.name, c.rules, key, 0) is None <==> column_holds(c, key),
{
    lemma_rules(table, c.name, c.rules, key, 0);
    if rules_refusal(table, c.name, c.rules, key, 0) is None {
        if c.rules.contains(ColumnRule::ForeignKey) {
            let k = choose|k: int| 0 <= k < c.rules.len() && c.rules[k] == ColumnRule::ForeignKey;
            assert(c.rules[k] != ColumnRule::ForeignKey);
        }
        if c.rules.contains(ColumnRule::Unique) {
            let k = choose|k: int| 0 <= k < c.rules.len() && c.rules[k] == ColumnRule::Unique;
            assert(c.rules[k] == ColumnRule::Unique);
        }
    } else if column_holds(c, key) {
        assert forall|k: int| 0 <= k < c.rules.len() implies (#[trigger] c.rules[k])
            != ColumnRule::ForeignKey && (c.rules[k] == ColumnRule::Unique ==> key == Some(
            lower(c.name),
        )) by {
            assert(c.rules.contains(c.rules[k]));
        }
    }
}

proof fn lemma_columns(
    table: Seq<char>,
    columns: Seq<ColumnModel>,
    key: Option<Seq<char>>,
    i: int,
)
    requires
        0 <= i,
    ensures
        columns_refusal(table, columns, key, i) is None <==> forall|k: int|
            i <= k < columns.len() ==> column_holds(#[trigger] columns[k], key),
    decreases columns.len() - i,
{
    if i < columns.len() {
        lemma_columns(table, columns, key, i + 1);
        lemma_column(table, columns[i], key);
    }
}

proof fn lemma_indexed(terms: Seq<TermModel>, n: nat, name: Seq<char>)
    requires
        n <= terms.len(),
    ensures
        indexed_columns(terms, n).contains(name) <==> exists|i: int|
            0 <= i < n && is_the_column(#[trigger] terms[i], name),
    decreases n,
{
    if n > 0 {
        let before = indexed_columns(terms, (n - 1) as nat);
        let all = indexed_columns(terms, n);
        let t = terms[n - 1];
        lemma_indexed(terms, (n - 1) as nat, name);
        assert(indexed_column(t) == Some(name) <==> is_the_column(t, name));
        if before.contains(name) {
            let k = choose|k: int| 0 <= k < before.len() && before[k] == name;
            assert(all[k] == name);
        }
        if is_the_column(t, name) {
            assert(all[all.len() - 1] == name);
        }
        if all.contains(name) && !before.contains(name) {
            let k = choose|k: int| 0 <= k < all.len() && all[k] == name;
            if k < before.len() {
                assert(before[k] == name);
            }
            assert(is_the_column(terms[n - 1], name));
        }
    } else {
        assert(!indexed_columns(terms, 0).contains(name));
    }
}

proof fn lemma_constraints(
    table: Seq<char>,
    constraints: Seq<ConstraintModel>,
    key: Option<Seq<char>>,
    i: int,
)
    requires
        0 <= i,
    ensures
        constraints_refusal(table, constraints, key, i) is None <==> forall|k: int|
            i <= k < constraints.len() ==> constraint_holds(#[trigger] constraints[k], key),
    decreases constraints.len() - i,
{
    if i < constraints.len() {
        lemma_constraints(table, constraints, key, i + 1);
        if let ConstraintModel::Unique(terms) = constraints[i] {
            if key is Some {
                lemma_indexed(terms, terms.len(), key->0);
            }
        }
        assert(constraint_holds(constraints[i], key) == constraint_holds(constraints[i], key));
    }
}

/// A table may be created exactly where it is global, or where every shard can enforce all its
/// constraints alone.
pub proof fn law_which_tables_may_be_created(
    create: CreateTableModel,
    classes: Map<Seq<char>, TableClass>,
)
    ensures
        create_refusal(create, classes) is None <==> declared_class(classes, bare_name(create.name))
            == TableClass::Global || ((forall|k: int|
            0 <= k < create.columns.len() ==> column_holds(
                #[trigger] create.columns[k],
                shard_key_of(create),
            )) && (forall|k: int|
            0 <= k < create.constraints.len() ==> constraint_holds(
                #[trigger] create.constraints[k],
                shard_key_of(create),
            ))),
{
    let table = bare_name(create.name);
    let key = shard_key_of(create);
    lemma_columns(table, create.columns, key, 0);
    lemma_constraints(table, create.constraints, key, 0);
}

/// The shard key of a table that is created is its first column that is marked as primary key, or
/// else the one column of a primary-key constraint, in lower case.
pub proof fn law_the_shard_key_of_a_table(create: CreateTableModel, i: int, t: TermModel)
    ensures
        0 <= i < create.columns.len() && create.columns[i].rules.contains(ColumnRule::PrimaryKey) && (
        forall|k: int|
            0 <= k < i ==> !(#[trigger] create.columns[k]).rules.contains(ColumnRule::PrimaryKey))
            ==> shard_key_of(create) == Some(lower(create.columns[i].name)),
        (forall|k: int|
            0 <= k < create.columns.len() ==> !(#[trigger] create.columns[k]).rules.contains(
                ColumnRule::PrimaryKey,
            )) && create.constraints == seq![ConstraintModel::PrimaryKey(seq![t])] && t.node
            is Identifier ==> shard_key_of(create) == Some(
            lower(t.node->Identifier_0),
        ),
        (forall|k: int|
            0 <= k < create.columns.len() ==> !(#[trigger] create.columns[k]).rules.contains(
                ColumnRule::PrimaryKey,
            )) && create.constraints.len() == 0 ==> shard_key_of(create) is None,
{
    if 0 <= i < create.columns.len() && create.columns[i].rules.contains(ColumnRule::PrimaryKey) && (
    forall|k: int|
        0 <= k < i ==> !(#[trigger] create.columns[k]).rules.contains(ColumnRule::PrimaryKey)) {
        lemma_marked(create.columns, 0, i);
    }
    if forall|k: int|
        0 <= k < create.columns.len() ==> !(#[trigger] create.columns[k]).rules.contains(
            ColumnRule::PrimaryKey,
        ) {
        lemma_unmarked(create.columns, 0);
        reveal_with_fuel(constraint_key, 2);
    }
}

proof fn lemma_marked(columns: Seq<ColumnModel>, from: int, i: int)
    requires
        0 <= from <= i < columns.len(),
        columns[i].rules.contains(ColumnRule::PrimaryKey),
        forall|k: int|
            0 <= k < i ==> !(#[trigger] columns[k]).rules.contains(ColumnRule::PrimaryKey),
    ensures
        marked_key(columns, from) == Some(lower(columns[i].name)),
    decreases i - from,
{
    if from < i {
        assert(!columns[from].rules.contains(ColumnRule::PrimaryKey));
        lemma_marked(columns, from + 1, i);
    }
}

proof fn lemma_unmarked(columns: Seq<ColumnModel>, from: int)
    requires
        0 <= from,
        forall|k: int|
            0 <= k < columns.len() ==> !(#[trigger] columns[k]).rules.contains(
                ColumnRule::PrimaryKey,
            ),
    ensures
        marked_key(columns, from) is None,
    decreases columns.len() - from,
{
    if from < columns.len() {
        assert(!columns[from].rules.contains(ColumnRule::PrimaryKey));
        lemma_unmarked(columns, from + 1);
    }
}

/// A table is of the class it was declared with, and sharded where nothing was declared.
pub proof fn law_table_classes(classes: Map<Seq<char>, TableClass>, table: Seq<char>)
    ensures
        classes.dom().contains(table) ==> declared_class(classes, table) == classes[table],
        !classes.dom().contains(table) ==> declared_class(classes, table) == TableClass::Sharded,
{
}

proof fn lemma_after_dot(before: Seq<char>, name: Seq<char>)
    requires
        forall|i: int| 0 <= i < name.len() ==> (#[trigger] name[i]) != '.',
    ensures
        after_last_dot(before + seq!['.'] + name) == name,
        after_last_dot(name) == name,
    decreases name.len(),
{
    let s = before + seq!['.'] + name;
    if name.len() == 0 {
        assert(s.last() == '.');
        assert(after_last_dot(s) =~= name);
    } else {
        let rest = name.drop_last();
        assert forall|i: int| 0 <= i < rest.len() implies (#[trigger] rest[i]) != '.' by {
            assert(name[i] != '.');
        }
        lemma_after_dot(before, rest);
        assert(s.drop_last() =~= before + seq!['.'] + rest);
        assert(s.last() == name.last());
        assert(name[name.len() - 1] != '.');
        assert(rest.push(name.last()) =~= name);
    }
}

proof fn lemma_unquoted(name: Seq<char>)
    requires
        name.len() > 0,
        name[0] != '"',
        name.last() != '"',
    ensures
        trim_quotes_end(trim_quotes_start(name)) == name,
        trim_quotes_end(trim_quotes_start(seq!['"'] + name + seq!['"'])) == name,
{
    let quoted = seq!['"'] + name + seq!['"'];
    let tail = name + seq!['"'];
    assert(quoted.subrange(1, quoted.len() as int) =~= tail);
    assert(quoted[0] == '"');
    assert(tail[0] == name[0]);
    assert(trim_quotes_start(tail) == tail);
    assert(trim_quotes_start(quoted) == trim_quotes_start(tail));
    assert(tail.drop_last() =~= name);
    assert(tail.last() == '"');
    assert(trim_quotes_end(name) == name);
    assert(trim_quotes_end(tail) == trim_quotes_end(name));
}

/// A table goes by the last part of its name, in lower case, whether it is qualified or not, and
/// whether it is quoted or not.
pub proof fn law_table_names(before: Seq<char>, name: Seq<char>)
    requires
        name.len() > 0,
        forall|i: int| 0 <= i < name.len() ==> (#[trigger] name[i]) != '.' && name[i] != '"',
    ensures
        bare_name(name) == lower(name),
        bare_name(before + seq!['.'] + name) == lower(name),
        bare_name(seq!['"'] + name + seq!['"']) == lower(name),
{
    lemma_after_dot(before, name);
    assert(name[0] != '"' && name[name.len() - 1] != '"');
    lemma_unquoted(name);
    let quoted = seq!['"'] + name + seq!['"'];
    assert forall|i: int| 0 <= i < quoted.len() implies (#[trigger] quoted[i]) != '.' by {
        if 0 < i < quoted.len() - 1 {
            assert(quoted[i] == name[i - 1]);
        }
    }
    lemma_after_dot(before, quoted);
}

// ---- strict mode -------------------------------------------------------------------------------

/// Strict mode refuses a limit without an order, and a limit whose order does not name the shard key
/// of the one table it is about; it refuses no query without a limit.
pub proof fn law_what_strict_mode_refuses(
    query: QueryModel,
    select: SelectModel,
    order: OrderByModel,
    keys: Map<Seq<char>, Seq<char>>,
    table: Seq<char>,
)
    ensures
        query.limit is None ==> query_refusal(query, keys) is None,
        query.limit is Some && query.order_by is None ==> query_refusal(query, keys) is Some,
        query.limit is Some && query.order_by == Some(order) && query.body == BodyModel::Select(
            Box::new(select),
        ) && lone_source(select.from) == Some(table) && keys.dom().contains(lower(table)) ==> (
        query_refusal(query, keys) is None <==> exists|from: int, to: int| #[trigger]
            whole_word(lower(order.text), from, to) && lower(order.text).subrange(from, to) == lower(
                keys[lower(table)],
            )),
        query.limit is Some && query.order_by == Some(order) && query.body == BodyModel::Select(
            Box::new(select),
        ) && lone_source(select.from) == Some(table) && !keys.dom().contains(lower(table))
            ==> query_refusal(query, keys) is None,
{
}

/// A word is whole where no letter, digit or underscore stands before or behind it.
pub proof fn law_whole_words(s: Seq<char>, from: int, to: int)
    requires
        whole_word(s, from, to),
    ensures
        from > 0 ==> s[from - 1] != '_',
        to < s.len() ==> s[to] != '_',
        forall|i: int| from <= i < to ==> word_char(#[trigger] s[i]),
{
}

/// Strict mode creates only tables whose class was declared, and looks at nothing but queries and
/// tables that are created.
pub proof fn law_strict_tables_are_declared(
    statement: SqlModel,
    keys: Map<Seq<char>, Seq<char>>,
    classes: Map<Seq<char>, TableClass>,
)
    ensures
        statement matches SqlModel::CreateTable(create) ==> (statement_refusal(
            statement,
            keys,
            classes,
        ) is None <==> classes.dom().contains(bare_name(create.name))),
        statement matches SqlModel::Query(query) ==> statement_refusal(statement, keys, classes)
            == query_refusal(query, keys),
        statement is Insert || statement is Update || statement is Delete || statement is Other
            ==> statement_refusal(statement, keys, classes) is None,
{
}

/// Strict mode looks at the order of a query over one table: not of one over several, nor of one over
/// a subquery.
pub proof fn law_lone_sources(from: Seq<FromModel>)
    ensures
        lone_source(from) is Some <==> from.len() == 1 && from[0].joins.len() == 0 && from[0].source
            is Table,
        lone_source(from) matches Some(table) ==> (from[0].source matches SourceModel::Table {
            name,
            ..
        } && table == bare_name(name)),
{
}

} // verus!
