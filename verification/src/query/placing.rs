//! Where statements run, in plain terms: what pins a statement to a shard, and what a key is.

use vstd::bytes::spec_u64_to_le_bytes;
use vstd::prelude::*;
use vstd::utf8::encode_utf8;

use super::route::{
    column_index, declared_key, divides, insert_parts, insert_route, key_route, literal_key, names_column, only_table,
    parts_hold_rows, pinned, primary_key, row_keys, rows_routed, routed_modulo, routing_key, statement_routed, target_table,
    KeyLiteral, KeyRouteModel, RouteModel,
};
use super::syntax::{
    BinOp, BodyModel, ColumnRule, ConstraintModel, CreateTableModel, DeleteModel, FromModel,
    InsertModel, InsertSourceModel, LiteralModel, NodeModel, QueryModel, SelectModel, SourceModel,
    SqlModel, TermModel, UpdateModel,
};
use crate::text::{decimal, lemma_decimal_reads_back, lower};

verus! {

// ---- what pins a statement ---------------------------------------------------------------------

/// Whether a reading of one condition is one of a row whose shard key is `held`: where an `AND` is
/// met both its sides are, parentheses change nothing, and an equality of the key with a literal is
/// met by that literal alone. Of any other condition nothing is asked.
pub open spec fn reads_condition(
    met: spec_fn(TermModel) -> bool,
    key: Seq<char>,
    held: KeyLiteral,
    t: TermModel,
) -> bool {
    met(t) ==> match t.node {
        NodeModel::Nested(inner) => met(*inner),
        NodeModel::Binary(l, BinOp::And, r) => met(*l) && met(*r),
        NodeModel::Binary(l, BinOp::Eq, r) => {
            &&& names_column(*l, key) && literal_key(*r) is Some ==> literal_key(*r) == Some(held)
            &&& !names_column(*l, key) && names_column(*r, key) && literal_key(*l) is Some
                ==> literal_key(*l) == Some(held)
        },
        _ => true,
    }
}

/// Whether a reading of conditions is one of a row whose shard key is `held`.
pub open spec fn reads_row(met: spec_fn(TermModel) -> bool, key: Seq<char>, held: KeyLiteral) -> bool {
    forall|t: TermModel| #[trigger] reads_condition(met, key, held, t)
}

/// A condition pins the shard key to a literal only where every row that meets the condition holds
/// that literal in the key's column.
pub proof fn law_a_pin_holds_of_every_row(
    t: TermModel,
    key: Seq<char>,
    v: KeyLiteral,
    held: KeyLiteral,
    met: spec_fn(TermModel) -> bool,
)
    requires
        reads_row(met, key, held),
        met(t),
        pinned(t, key) == Some(v),
    ensures
        v == held,
    decreases t,
{
    assert(reads_condition(met, key, held, t));
    match t.node {
        NodeModel::Nested(inner) => {
            assert(met(*inner));
            law_a_pin_holds_of_every_row(*inner, key, v, held, met);
        },
        NodeModel::Binary(l, BinOp::And, r) => {
            assert(met(*l) && met(*r));
            if pinned(*l, key) is Some {
                law_a_pin_holds_of_every_row(*l, key, v, held, met);
            } else {
                law_a_pin_holds_of_every_row(*r, key, v, held, met);
            }
        },
        _ => {},
    }
}

/// No comparison but an equality pins anything, nor does an `OR`, a `NOT` or a test for NULL,
/// whatever stands in it.
pub proof fn law_only_equality_pins(t: TermModel, key: Seq<char>)
    requires
        match t.node {
            NodeModel::Nested(_) => false,
            NodeModel::Binary(_, op, _) => op != BinOp::Eq && op != BinOp::And,
            _ => true,
        },
    ensures
        pinned(t, key) is None,
{
}

/// An equality of two columns, or of anything that is not the key, pins nothing.
pub proof fn law_only_the_key_pins(t: TermModel, l: TermModel, r: TermModel, key: Seq<char>)
    requires
        t.node == NodeModel::Binary(Box::new(l), BinOp::Eq, Box::new(r)),
        (!names_column(l, key) && !names_column(r, key)) || (literal_key(l) is None && literal_key(
            r,
        ) is None),
    ensures
        pinned(t, key) is None,
{
}

/// A range over the shard key is no equality: a write with it runs on every shard, and a read with
/// it is left to the fan-out.
pub proof fn law_a_range_goes_everywhere(
    outside: sqlparser::ast::Insert,
    query: QueryModel,
    update: UpdateModel,
    delete: DeleteModel,
    condition: TermModel,
    l: TermModel,
    op: BinOp,
    r: TermModel,
    table: Seq<char>,
    key: Seq<char>,
    keys: Map<Seq<char>, Seq<char>>,
    lives: spec_fn(Seq<u8>, u32) -> bool,
    queried: RouteModel,
    updated: RouteModel,
    deleted: RouteModel,
)
    requires
        keys.dom().contains(lower(table)) && keys[lower(table)] == key,
        condition.node == NodeModel::Binary(Box::new(l), op, Box::new(r)),
        op != BinOp::Eq && op != BinOp::And,
        query.body matches BodyModel::Select(select) && target_table(select.from) == Some(table)
            && select.selection == Some(condition),
        !update.joined && only_table(update.target) == Some(table) && update.selection == Some(
            condition,
        ),
        forall|i: int, k: int|
            0 <= i < update.targets.len() && 0 <= k < update.targets[i].len() ==> lower(
                #[trigger] update.targets[i][k],
            ) != lower(key),
        target_table(delete.from) == Some(table) && delete.selection == Some(condition),
        statement_routed(Some(SqlModel::Query(query)), outside, keys, lives, queried),
        statement_routed(Some(SqlModel::Update(update)), outside, keys, lives, updated),
        statement_routed(Some(SqlModel::Delete(delete)), outside, keys, lives, deleted),
    ensures
        queried == RouteModel::Passthrough,
        updated == RouteModel::All,
        deleted == RouteModel::All,
{
}

/// A column is named by its name in any case, alone or behind the name of a table.
pub proof fn law_columns_by_name(text: Seq<char>, name: Seq<char>, before: Seq<char>, key: Seq<char>)
    ensures
        names_column(TermModel { text, node: NodeModel::Identifier(name) }, key) <==> lower(name)
            == lower(key),
        names_column(TermModel { text, node: NodeModel::Compound(seq![before, name]) }, key) <==>
            lower(name) == lower(key),
{
}

// ---- keys --------------------------------------------------------------------------------------

/// An integer routes by its eight bytes, the lowest first, whether or not it has a sign, and a text
/// by its bytes in UTF-8.
pub proof fn law_what_literals_route_by(text: Seq<char>, n: i64, s: Seq<char>)
    requires
        n >= 0,
    ensures
        ({
            let number = TermModel {
                text,
                node: NodeModel::Literal(LiteralModel::Number(decimal(n as nat))),
            };
            let minus = TermModel { text, node: NodeModel::Minus(Box::new(number)) };
            let words = TermModel { text, node: NodeModel::Literal(LiteralModel::Text(s)) };
            &&& routing_key(number) == Some(spec_u64_to_le_bytes(n as u64))
            &&& routing_key(minus) == Some(spec_u64_to_le_bytes(((-n) as i64) as u64))
            &&& routing_key(words) == Some(encode_utf8(s))
        }),
{
    lemma_decimal_reads_back(n as nat);
    let s = decimal(n as nat);
    assert(crate::text::is_digit(s[0]));
    let number = TermModel {
        text,
        node: NodeModel::Literal(LiteralModel::Number(decimal(n as nat))),
    };
    assert(literal_key(number) == Some(KeyLiteral::Integer(n)));
}

/// Neither a real, nor NULL, nor anything that is no literal is a routing key.
pub proof fn law_what_does_not_route(t: TermModel)
    requires
        t.node is Identifier || t.node is Compound || t.node is Call || t.node is Binary || t.node
            is Not || t.node is Nested || t.node is IsNull || t.node is IsNotNull || t.node is Other
            || (t.node matches NodeModel::Literal(l) && (l is Null || l is Other)) || literal_key(t)
            == Some(KeyLiteral::Real),
    ensures
        routing_key(t) is None,
{
}

/// The shard key of a table is the one declared under its name, in any case.
pub proof fn law_declared_keys(table: Seq<char>, keys: Map<Seq<char>, Seq<char>>)
    ensures
        keys.dom().contains(lower(table)) ==> declared_key(table, keys) == Some(keys[lower(table)]),
        !keys.dom().contains(lower(table)) ==> declared_key(table, keys) is None,
{
}

/// A statement is routed by its key only where it is about one table, without a join; a table
/// without a declared key is left to the caller.
pub proof fn law_only_single_tables_are_routed(
    item: FromModel,
    more: FromModel,
    query: QueryModel,
    select: SelectModel,
    keys: Map<Seq<char>, Seq<char>>,
)
    requires
        query.body == BodyModel::Select(Box::new(select)),
    ensures
        item.joins.len() > 0 ==> only_table(item) is None,
        item.joins.len() == 0 ==> only_table(item) == (match item.source {
            SourceModel::Table { ident, .. } => Some(ident),
            _ => None,
        }),
        target_table(seq![item]) == only_table(item),
        target_table(seq![item, more]) is None,
        select.from.len() != 1 ==> key_route(SqlModel::Query(query), keys)
            == KeyRouteModel::Passthrough,
        target_table(select.from) matches Some(t) && !keys.dom().contains(lower(t)) ==> key_route(
            SqlModel::Query(query),
            keys,
        ) == KeyRouteModel::Passthrough,
{
}

// ---- inserts -----------------------------------------------------------------------------------

proof fn lemma_row_keys(rows: Seq<Seq<TermModel>>, column: int, key: Seq<char>, n: nat)
    requires
        n <= rows.len(),
        0 <= column,
        row_keys(rows, column, key, n) is Ok,
    ensures
        row_keys(rows, column, key, n)->Ok_0.len() == n,
        forall|i: int|
            0 <= i < n ==> column < (#[trigger] rows[i]).len() && routing_key(rows[i][column])
                == Some(row_keys(rows, column, key, n)->Ok_0[i]),
    decreases n,
{
    if n > 0 {
        lemma_row_keys(rows, column, key, (n - 1) as nat);
    }
}

proof fn lemma_row_without(rows: Seq<Seq<TermModel>>, column: int, key: Seq<char>, n: nat, i: int)
    requires
        0 <= i < n <= rows.len(),
        0 <= column,
        column >= rows[i].len() || routing_key(rows[i][column]) is None,
    ensures
        row_keys(rows, column, key, n) is Err,
    decreases n,
{
    if i < n - 1 {
        lemma_row_without(rows, column, key, (n - 1) as nat, i);
    }
}

proof fn lemma_column(columns: Seq<Seq<char>>, key: Seq<char>, i: int)
    requires
        0 <= i,
    ensures
        column_index(columns, key, i) matches Some(at) ==> i <= at < columns.len() && lower(
            columns[at],
        ) == lower(key),
        column_index(columns, key, i) is None ==> forall|k: int|
            i <= k < columns.len() ==> lower(#[trigger] columns[k]) != lower(key),
    decreases columns.len() - i,
{
    if i < columns.len() {
        lemma_column(columns, key, i + 1);
    }
}

/// The rows of an insert are routed one by one, each by the literal that it has in the column of
/// the shard key.
pub proof fn law_rows_route_by_their_key_column(
    insert: InsertModel,
    table: Seq<char>,
    key: Seq<char>,
    keys: Map<Seq<char>, Seq<char>>,
    rows: Seq<Seq<TermModel>>,
    found: Seq<Seq<u8>>,
    i: int,
)
    requires
        insert.table == Some(table),
        keys.dom().contains(lower(table)) && keys[lower(table)] == key,
        insert.source == InsertSourceModel::Values(rows),
        insert_route(insert, keys) == KeyRouteModel::Rows(found),
        0 <= i < rows.len(),
    ensures
        found.len() == rows.len(),
        exists|at: int|
            0 <= at < insert.columns.len() && lower(#[trigger] insert.columns[at]) == lower(key)
                && at < rows[i].len() && routing_key(rows[i][at]) == Some(found[i]),
{
    lemma_column(insert.columns, key, 0);
    let at = column_index(insert.columns, key, 0)->0;
    lemma_row_keys(rows, at, key, rows.len());
    assert(lower(insert.columns[at]) == lower(key));
    assert(routing_key(rows[i][at]) == Some(found[i]));
}

/// An insert into a sharded table that cannot be routed is refused: one that does not name its
/// columns, or names them without the key, one without rows, one that takes its rows from a query,
/// and one with a row whose key is no literal.
pub proof fn law_inserts_that_are_refused(
    insert: InsertModel,
    table: Seq<char>,
    key: Seq<char>,
    keys: Map<Seq<char>, Seq<char>>,
    i: int,
)
    requires
        insert.table == Some(table),
        keys.dom().contains(lower(table)) && keys[lower(table)] == key,
    ensures
        (forall|k: int| 0 <= k < insert.columns.len() ==> lower(#[trigger] insert.columns[k])
            != lower(key)) ==> insert_route(insert, keys) is Refuse,
        insert.source is Missing || insert.source is Query ==> insert_route(insert, keys) is Refuse,
        insert.source matches InsertSourceModel::Values(rows) && rows.len() == 0 ==> insert_route(
            insert,
            keys,
        ) is Refuse,
        insert.source matches InsertSourceModel::Values(rows) && 0 <= i < rows.len() && (forall|
            k: int,
        |
            0 <= k < rows[i].len() ==> routing_key(#[trigger] rows[i][k]) is None)
            ==> insert_route(insert, keys) is Refuse,
{
    lemma_column(insert.columns, key, 0);
    if column_index(insert.columns, key, 0) is Some {
        let at = column_index(insert.columns, key, 0)->0;
        if let InsertSourceModel::Values(rows) = insert.source {
            if 0 <= i < rows.len() && (forall|k: int|
                0 <= k < rows[i].len() ==> routing_key(#[trigger] rows[i][k]) is None) {
                lemma_row_without(rows, at, key, rows.len(), i);
            }
        }
    }
}

/// An insert into a table without a declared key is left to the caller.
pub proof fn law_other_inserts_pass(insert: InsertModel, keys: Map<Seq<char>, Seq<char>>)
    ensures
        insert.table matches Some(t) && !keys.dom().contains(lower(t)) ==> insert_route(insert, keys)
            == KeyRouteModel::Passthrough,
        insert.table is None ==> insert_route(insert, keys) == KeyRouteModel::Passthrough,
{
}

/// Rows that live on several shards are divided: each shard that a row lives on gets one part, in
/// ascending order, and no other shard gets any. Rows that share a shard go there as they are.
pub proof fn law_rows_on_several_shards(
    shards: Seq<u32>,
    insert: sqlparser::ast::Insert,
    r: RouteModel,
    i: int,
    j: int,
)
    requires
        rows_routed(shards, insert, r),
        0 <= i < shards.len(),
        0 <= j < shards.len(),
    ensures
        shards[i] != shards[j] ==> r is Split,
        r matches RouteModel::Split(parts) ==> (exists|a: int|
            0 <= a < parts.len() && (#[trigger] parts[a]).0 == shards[i]) && forall|a: int, b: int|
            0 <= a < b < parts.len() ==> (#[trigger] parts[a]).0 < (#[trigger] parts[b]).0,
        r matches RouteModel::One(shard) ==> shard == shards[i],
{
    let groups = choose|groups: Seq<(u32, Seq<usize>)>| #[trigger]
        divides(groups, shards, shards.len()) && (if groups.len() == 1 {
            r == RouteModel::One(groups[0].0)
        } else {
            r == RouteModel::Split(insert_parts(insert, groups)) && parts_hold_rows(insert, groups)
        });
    let a = choose|a: int| 0 <= a < groups.len() && (#[trigger] groups[a]).0 == shards[i];
    let b = choose|b: int| 0 <= b < groups.len() && (#[trigger] groups[b]).0 == shards[j];
    assert(groups[a].0 == shards[i] && groups[b].0 == shards[j]);
    if let RouteModel::Split(parts) = r {
        assert(parts[a].0 == shards[i]);
        assert forall|x: int, y: int| 0 <= x < y < parts.len() implies (#[trigger] parts[x]).0 < (
        #[trigger] parts[y]).0 by {
            assert(groups[x].0 < groups[y].0);
        }
    }
}

/// A text that is not one statement is left to the caller, and so is an update over a join.
pub proof fn law_what_is_left_to_the_caller(
    outside: sqlparser::ast::Insert,
    update: UpdateModel,
    keys: Map<Seq<char>, Seq<char>>,
    lives: spec_fn(Seq<u8>, u32) -> bool,
    r: RouteModel,
)
    ensures
        statement_routed(None, outside, keys, lives, r) ==> r == RouteModel::Passthrough,
        update.joined && statement_routed(
            Some(SqlModel::Update(update)),
            outside,
            keys,
            lives,
            r,
        ) ==> r == RouteModel::Passthrough,
        statement_routed(Some(SqlModel::Other), outside, keys, lives, r) ==> r
            == RouteModel::Passthrough,
{
}

/// Under modulo routing a statement that goes to one shard goes to one that there is.
pub proof fn law_modulo_routing_stays_in_range<H: Fn(&Vec<u8>) -> u64>(
    hash: H,
    shard_count: u32,
    key: Seq<u8>,
    shard: u32,
)
    requires
        shard_count > 0,
        routed_modulo(hash, shard_count, key, shard),
    ensures
        shard < shard_count,
{
}

// ---- primary keys ------------------------------------------------------------------------------

/// A table declares a primary key of one column: the one column that is marked, or, where none is,
/// the one column of its first primary-key constraint.
pub proof fn law_primary_keys(create: CreateTableModel, i: int, name: Seq<char>, text: Seq<char>)
    ensures
        0 <= i < create.columns.len() && create.columns[i].rules.contains(ColumnRule::PrimaryKey) && (
        forall|k: int|
            0 <= k < create.columns.len() && k != i ==> !(
            #[trigger] create.columns[k]).rules.contains(ColumnRule::PrimaryKey)) ==> primary_key(
            create,
        ) == Some(create.columns[i].name),
        (forall|k: int|
            0 <= k < create.columns.len() ==> !(#[trigger] create.columns[k]).rules.contains(
                ColumnRule::PrimaryKey,
            )) && create.constraints == seq![
            ConstraintModel::PrimaryKey(
                seq![TermModel { text, node: NodeModel::Identifier(name) }],
            ),
        ] ==> primary_key(create) == Some(name),
        (forall|k: int|
            0 <= k < create.columns.len() ==> !(#[trigger] create.columns[k]).rules.contains(
                ColumnRule::PrimaryKey,
            )) && create.constraints.len() == 0 ==> primary_key(create) is None,
{
    let n = create.columns.len();
    if forall|k: int|
        0 <= k < create.columns.len() ==> !(#[trigger] create.columns[k]).rules.contains(
            ColumnRule::PrimaryKey,
        ) {
        lemma_unmarked(create, n, -1);
        reveal_with_fuel(super::route::key_terms, 2);
    } else if 0 <= i < n && create.columns[i].rules.contains(ColumnRule::PrimaryKey) {
        if forall|k: int|
            0 <= k < create.columns.len() && k != i ==> !(
            #[trigger] create.columns[k]).rules.contains(ColumnRule::PrimaryKey) {
            lemma_unmarked(create, n, i);
        }
    }
}

proof fn lemma_unmarked(create: CreateTableModel, n: nat, i: int)
    requires
        n <= create.columns.len(),
        forall|k: int|
            0 <= k < create.columns.len() && k != i ==> !(
            #[trigger] create.columns[k]).rules.contains(ColumnRule::PrimaryKey),
        0 <= i < create.columns.len() ==> create.columns[i].rules.contains(ColumnRule::PrimaryKey),
    ensures
        super::route::marked_columns(create.columns, n) == (if 0 <= i < n {
            seq![create.columns[i].name]
        } else {
            Seq::empty()
        }),
    decreases n,
{
    if n > 0 {
        lemma_unmarked(create, (n - 1) as nat, i);
        if i == n - 1 {
            assert(Seq::<Seq<char>>::empty().push(create.columns[i].name) =~= seq![
                create.columns[i].name,
            ]);
        }
    }
}

} // verus!
