//! The parts of a SQL statement that planning, routing and the schema gate read.
//!
//! A statement is parsed by `sqlparser` (see [`super::reader`]); what the rules need of the
//! parse tree is held here as plain values, each node with the SQL text that it renders to.
//! Beside every type stands its ghost model, the value the specifications speak of.

use vstd::prelude::*;

use crate::text::views;

verus! {

/// A binary operator. Operators that no rule looks at are `Other`.
#[derive(Clone, Copy, Debug, PartialEq, Eq, Structural)]
pub enum BinOp {
    And,
    Or,
    Eq,
    NotEq,
    Lt,
    LtEq,
    Gt,
    GtEq,
    Other,
}

/// A literal. `Text` is a single- or double-quoted string.
#[derive(Debug)]
pub enum Literal {
    Number(String),
    Text(String),
    Boolean(bool),
    Null,
    Other,
}

pub ghost enum LiteralModel {
    Number(Seq<char>),
    Text(Seq<char>),
    Boolean(bool),
    Null,
    Other,
}

impl View for Literal {
    type V = LiteralModel;

    open spec fn view(&self) -> LiteralModel {
        match self {
            Literal::Number(s) => LiteralModel::Number(s@),
            Literal::Text(s) => LiteralModel::Text(s@),
            Literal::Boolean(b) => LiteralModel::Boolean(*b),
            Literal::Null => LiteralModel::Null,
            Literal::Other => LiteralModel::Other,
        }
    }
}

/// One argument of a function call: `*`, a bare column, another expression (each expression as
/// its SQL text), or a form that no rule accepts.
#[derive(Debug)]
pub enum Arg {
    Wildcard,
    Column(String),
    Expression(String),
    Other,
}

pub ghost enum ArgModel {
    Wildcard,
    Column(Seq<char>),
    Expression(Seq<char>),
    Other,
}

impl View for Arg {
    type V = ArgModel;

    open spec fn view(&self) -> ArgModel {
        match self {
            Arg::Wildcard => ArgModel::Wildcard,
            Arg::Column(s) => ArgModel::Column(s@),
            Arg::Expression(s) => ArgModel::Expression(s@),
            Arg::Other => ArgModel::Other,
        }
    }
}

/// A function call. `listed` says that the arguments are a plain list; where they are not,
/// `args` is empty.
#[derive(Debug)]
pub struct Call {
    pub name: String,
    pub listed: bool,
    pub distinct: bool,
    pub args: Vec<Arg>,
    pub windowed: bool,
}

pub ghost struct CallModel {
    pub name: Seq<char>,
    pub listed: bool,
    pub distinct: bool,
    pub args: Seq<ArgModel>,
    pub windowed: bool,
}

pub open spec fn args_model(args: Seq<Arg>) -> Seq<ArgModel> {
    args.map_values(|a: Arg| a@)
}

impl View for Call {
    type V = CallModel;

    open spec fn view(&self) -> CallModel {
        CallModel {
            name: self.name@,
            listed: self.listed,
            distinct: self.distinct,
            args: args_model(self.args@),
            windowed: self.windowed,
        }
    }
}

/// A call mentioned somewhere inside an expression.
#[derive(Debug)]
pub struct CallMention {
    pub name: String,
    pub distinct: bool,
}

pub ghost struct CallMentionModel {
    pub name: Seq<char>,
    pub distinct: bool,
}

impl View for CallMention {
    type V = CallMentionModel;

    open spec fn view(&self) -> CallMentionModel {
        CallMentionModel { name: self.name@, distinct: self.distinct }
    }
}

pub open spec fn calls_model(calls: Seq<CallMention>) -> Seq<CallMentionModel> {
    calls.map_values(|c: CallMention| c@)
}

/// An expression and the SQL text it renders to.
#[derive(Debug)]
pub struct Term {
    pub text: String,
    pub node: Node,
}

#[derive(Debug)]
pub enum Node {
    Identifier(String),
    Compound(Vec<String>),
    Literal(Literal),
    Call(Call),
    Binary(Box<Term>, BinOp, Box<Term>),
    Not(Box<Term>),
    Minus(Box<Term>),
    Nested(Box<Term>),
    IsNull(Box<Term>),
    IsNotNull(Box<Term>),
    Other,
}

pub ghost struct TermModel {
    pub text: Seq<char>,
    pub node: NodeModel,
}

pub ghost enum NodeModel {
    Identifier(Seq<char>),
    Compound(Seq<Seq<char>>),
    Literal(LiteralModel),
    Call(CallModel),
    Binary(Box<TermModel>, BinOp, Box<TermModel>),
    Not(Box<TermModel>),
    Minus(Box<TermModel>),
    Nested(Box<TermModel>),
    IsNull(Box<TermModel>),
    IsNotNull(Box<TermModel>),
    Other,
}

impl Term {
    pub open spec fn model(self) -> TermModel
        decreases self,
    {
        TermModel { text: self.text@, node: self.node.model() }
    }
}

impl Node {
    pub open spec fn model(self) -> NodeModel
        decreases self,
    {
        match self {
            Node::Identifier(s) => NodeModel::Identifier(s@),
            Node::Compound(parts) => NodeModel::Compound(views(parts@)),
            Node::Literal(l) => NodeModel::Literal(l@),
            Node::Call(c) => NodeModel::Call(c@),
            Node::Binary(l, op, r) => NodeModel::Binary(
                Box::new(l.model()),
                op,
                Box::new(r.model()),
            ),
            Node::Not(t) => NodeModel::Not(Box::new(t.model())),
            Node::Minus(t) => NodeModel::Minus(Box::new(t.model())),
            Node::Nested(t) => NodeModel::Nested(Box::new(t.model())),
            Node::IsNull(t) => NodeModel::IsNull(Box::new(t.model())),
            Node::IsNotNull(t) => NodeModel::IsNotNull(Box::new(t.model())),
            Node::Other => NodeModel::Other,
        }
    }
}

pub open spec fn terms_model(terms: Seq<Term>) -> Seq<TermModel> {
    terms.map_values(|t: Term| t.model())
}

pub open spec fn term_option(t: Option<Term>) -> Option<TermModel> {
    match t {
        Some(t) => Some(t.model()),
        None => None,
    }
}

pub open spec fn text_option(s: Option<String>) -> Option<Seq<char>> {
    match s {
        Some(s) => Some(s@),
        None => None,
    }
}

/// One item of a select list. `calls` are the calls inside the expression, in the order in which
/// a walk of it meets them. `Wildcard` is `*` or `t.*`; `Aliases` a list of aliases for one item.
#[derive(Debug)]
pub enum Item {
    Term { term: Term, alias: Option<String>, calls: Vec<CallMention> },
    Wildcard,
    Aliases,
}

pub ghost enum ItemModel {
    Term { term: TermModel, alias: Option<Seq<char>>, calls: Seq<CallMentionModel> },
    Wildcard,
    Aliases,
}

impl View for Item {
    type V = ItemModel;

    open spec fn view(&self) -> ItemModel {
        match self {
            Item::Term { term, alias, calls } => ItemModel::Term {
                term: term.model(),
                alias: text_option(*alias),
                calls: calls_model(calls@),
            },
            Item::Wildcard => ItemModel::Wildcard,
            Item::Aliases => ItemModel::Aliases,
        }
    }
}

pub open spec fn items_model(items: Seq<Item>) -> Seq<ItemModel> {
    items.map_values(|i: Item| i@)
}

/// One relation of a `FROM`. `name` is the rendered name of a table and `ident` the last part of
/// it, unquoted; a derived table is its inner query.
#[derive(Debug)]
pub enum Source {
    Table { name: String, ident: String, alias: Option<String> },
    Derived { sql: String, alias: Option<String> },
    Other,
}

pub ghost enum SourceModel {
    Table { name: Seq<char>, ident: Seq<char>, alias: Option<Seq<char>> },
    Derived { sql: Seq<char>, alias: Option<Seq<char>> },
    Other,
}

impl View for Source {
    type V = SourceModel;

    open spec fn view(&self) -> SourceModel {
        match self {
            Source::Table { name, ident, alias } => SourceModel::Table {
                name: name@,
                ident: ident@,
                alias: text_option(*alias),
            },
            Source::Derived { sql, alias } => SourceModel::Derived {
                sql: sql@,
                alias: text_option(*alias),
            },
            Source::Other => SourceModel::Other,
        }
    }
}

/// How a joined relation is joined: on a condition, by another kind of constraint (`USING`,
/// `NATURAL`, none), or by a join operator that carries none of these.
#[derive(Debug)]
pub enum JoinOn {
    On(Term),
    Constraint,
    Operator,
}

pub ghost enum JoinOnModel {
    On(TermModel),
    Constraint,
    Operator,
}

#[derive(Debug)]
pub struct JoinTree {
    pub source: Source,
    pub on: JoinOn,
}

pub ghost struct JoinModel {
    pub source: SourceModel,
    pub on: JoinOnModel,
}

impl View for JoinTree {
    type V = JoinModel;

    open spec fn view(&self) -> JoinModel {
        JoinModel {
            source: self.source@,
            on: match self.on {
                JoinOn::On(t) => JoinOnModel::On(t.model()),
                JoinOn::Constraint => JoinOnModel::Constraint,
                JoinOn::Operator => JoinOnModel::Operator,
            },
        }
    }
}

pub open spec fn joins_model(joins: Seq<JoinTree>) -> Seq<JoinModel> {
    joins.map_values(|j: JoinTree| j@)
}

/// One comma-separated item of a `FROM`, with the joins that hang on it.
#[derive(Debug)]
pub struct FromItem {
    pub text: String,
    pub source: Source,
    pub joins: Vec<JoinTree>,
}

pub ghost struct FromModel {
    pub text: Seq<char>,
    pub source: SourceModel,
    pub joins: Seq<JoinModel>,
}

impl View for FromItem {
    type V = FromModel;

    open spec fn view(&self) -> FromModel {
        FromModel { text: self.text@, source: self.source@, joins: joins_model(self.joins@) }
    }
}

pub open spec fn from_model(from: Seq<FromItem>) -> Seq<FromModel> {
    from.map_values(|f: FromItem| f@)
}

/// `GROUP BY`: `ALL`, or a list of expressions. `modified` says that a modifier (`ROLLUP`, `CUBE`,
/// `GROUPING SETS`) follows the list.
#[derive(Debug)]
pub enum GroupBy {
    All,
    Terms { terms: Vec<Term>, modified: bool },
}

pub ghost enum GroupByModel {
    All,
    Terms { terms: Seq<TermModel>, modified: bool },
}

impl View for GroupBy {
    type V = GroupByModel;

    open spec fn view(&self) -> GroupByModel {
        match self {
            GroupBy::All => GroupByModel::All,
            GroupBy::Terms { terms, modified } => GroupByModel::Terms {
                terms: terms_model(terms@),
                modified: *modified,
            },
        }
    }
}

/// The duplicate treatment written after `SELECT`: none, one that speaks of whole rows, or
/// `DISTINCT ON`.
#[derive(Clone, Copy, Debug, PartialEq, Eq, Structural)]
pub enum DistinctKind {
    Absent,
    Rows,
    On,
}

#[derive(Debug)]
pub struct Having {
    pub term: Term,
    pub calls: Vec<CallMention>,
}

pub ghost struct HavingModel {
    pub term: TermModel,
    pub calls: Seq<CallMentionModel>,
}

#[derive(Debug)]
pub struct SelectTree {
    pub text: String,
    pub distinct: DistinctKind,
    pub projection: Vec<Item>,
    pub from: Vec<FromItem>,
    pub selection: Option<Term>,
    pub group_by: GroupBy,
    pub having: Option<Having>,
}

pub ghost struct SelectModel {
    pub text: Seq<char>,
    pub distinct: DistinctKind,
    pub projection: Seq<ItemModel>,
    pub from: Seq<FromModel>,
    pub selection: Option<TermModel>,
    pub group_by: GroupByModel,
    pub having: Option<HavingModel>,
}

impl View for SelectTree {
    type V = SelectModel;

    open spec fn view(&self) -> SelectModel {
        SelectModel {
            text: self.text@,
            distinct: self.distinct,
            projection: items_model(self.projection@),
            from: from_model(self.from@),
            selection: term_option(self.selection),
            group_by: self.group_by@,
            having: match self.having {
                Some(h) => Some(
                    HavingModel { term: h.term.model(), calls: calls_model(h.calls@) },
                ),
                None => None,
            },
        }
    }
}

/// A set operator.
#[derive(Clone, Copy, Debug, PartialEq, Eq, Structural)]
pub enum SetKind {
    Union,
    Intersect,
    Except,
}

/// The quantifier of a set operation: `ALL`, any form of `BY NAME`, or neither.
#[derive(Clone, Copy, Debug, PartialEq, Eq, Structural)]
pub enum Quantifier {
    All,
    ByName,
    Distinct,
}

/// The body of a query.
#[derive(Debug)]
pub enum Body {
    Select(Box<SelectTree>),
    Operation { op: SetKind, quantifier: Quantifier, left: Box<Body>, right: Box<Body> },
    Other,
}

pub ghost enum BodyModel {
    Select(Box<SelectModel>),
    Operation { op: SetKind, quantifier: Quantifier, left: Box<BodyModel>, right: Box<BodyModel> },
    Other,
}

impl Body {
    pub open spec fn model(self) -> BodyModel
        decreases self,
    {
        match self {
            Body::Select(s) => BodyModel::Select(Box::new(s@)),
            Body::Operation { op, quantifier, left, right } => BodyModel::Operation {
                op,
                quantifier,
                left: Box::new(left.model()),
                right: Box::new(right.model()),
            },
            Body::Other => BodyModel::Other,
        }
    }
}

#[derive(Debug)]
pub struct OrderTerm {
    pub term: Term,
    pub ascending: Option<bool>,
    pub nulls_first: Option<bool>,
}

pub ghost struct OrderTermModel {
    pub term: TermModel,
    pub ascending: Option<bool>,
    pub nulls_first: Option<bool>,
}

impl View for OrderTerm {
    type V = OrderTermModel;

    open spec fn view(&self) -> OrderTermModel {
        OrderTermModel {
            term: self.term.model(),
            ascending: self.ascending,
            nulls_first: self.nulls_first,
        }
    }
}

pub open spec fn order_terms_model(terms: Seq<OrderTerm>) -> Seq<OrderTermModel> {
    terms.map_values(|t: OrderTerm| t@)
}

/// `ORDER BY`: its rendered text, and its terms (`None` for `ORDER BY ALL`).
#[derive(Debug)]
pub struct OrderTree {
    pub text: String,
    pub terms: Option<Vec<OrderTerm>>,
}

pub ghost struct OrderByModel {
    pub text: Seq<char>,
    pub terms: Option<Seq<OrderTermModel>>,
}

impl View for OrderTree {
    type V = OrderByModel;

    open spec fn view(&self) -> OrderByModel {
        OrderByModel {
            text: self.text@,
            terms: match self.terms {
                Some(t) => Some(order_terms_model(t@)),
                None => None,
            },
        }
    }
}

/// `LIMIT n OFFSET m`, either of which may be missing, or another form.
#[derive(Debug)]
pub enum Limit {
    Rows { limit: Option<Term>, offset: Option<Term> },
    Other,
}

pub ghost enum LimitModel {
    Rows { limit: Option<TermModel>, offset: Option<TermModel> },
    Other,
}

impl View for Limit {
    type V = LimitModel;

    open spec fn view(&self) -> LimitModel {
        match self {
            Limit::Rows { limit, offset } => LimitModel::Rows {
                limit: term_option(*limit),
                offset: term_option(*offset),
            },
            Limit::Other => LimitModel::Other,
        }
    }
}

/// An expression met on a walk of a whole query: a column reference (its last part), an `ANY` or
/// `ALL` comparison, a subquery in a position where its result can stand, or anything else.
#[derive(Debug)]
pub enum Mention {
    Column(String),
    Quantified,
    Subquery,
    Other,
}

pub ghost enum MentionModel {
    Column(Seq<char>),
    Quantified,
    Subquery,
    Other,
}

impl View for Mention {
    type V = MentionModel;

    open spec fn view(&self) -> MentionModel {
        match self {
            Mention::Column(s) => MentionModel::Column(s@),
            Mention::Quantified => MentionModel::Quantified,
            Mention::Subquery => MentionModel::Subquery,
            Mention::Other => MentionModel::Other,
        }
    }
}

pub open spec fn mentions_model(mentions: Seq<Mention>) -> Seq<MentionModel> {
    mentions.map_values(|m: Mention| m@)
}

/// A query. Beside its own text it carries the texts of three rewritings of it: without its
/// `LIMIT` clause, without the duplicate treatment of its `SELECT`, and with every aliased
/// derived table of its `FROM` replaced by a reference to a table of that name.
#[derive(Debug)]
pub struct QueryTree {
    pub text: String,
    pub unlimited: String,
    pub plain: String,
    pub central: String,
    pub with: bool,
    pub fetch: bool,
    pub body: Body,
    pub order_by: Option<OrderTree>,
    pub limit: Option<Limit>,
    pub mentions: Vec<Mention>,
}

pub ghost struct QueryModel {
    pub text: Seq<char>,
    pub unlimited: Seq<char>,
    pub plain: Seq<char>,
    pub central: Seq<char>,
    pub with: bool,
    pub fetch: bool,
    pub body: BodyModel,
    pub order_by: Option<OrderByModel>,
    pub limit: Option<LimitModel>,
    pub mentions: Seq<MentionModel>,
}

impl View for QueryTree {
    type V = QueryModel;

    open spec fn view(&self) -> QueryModel {
        QueryModel {
            text: self.text@,
            unlimited: self.unlimited@,
            plain: self.plain@,
            central: self.central@,
            with: self.with,
            fetch: self.fetch,
            body: self.body.model(),
            order_by: match self.order_by {
                Some(o) => Some(o@),
                None => None,
            },
            limit: match self.limit {
                Some(l) => Some(l@),
                None => None,
            },
            mentions: mentions_model(self.mentions@),
        }
    }
}

/// Where the rows of an `INSERT` come from.
#[derive(Debug)]
pub enum InsertSource {
    Missing,
    Values(Vec<Vec<Term>>),
    Query,
}

pub ghost enum InsertSourceModel {
    Missing,
    Values(Seq<Seq<TermModel>>),
    Query,
}

pub open spec fn value_rows_model(rows: Seq<Vec<Term>>) -> Seq<Seq<TermModel>> {
    rows.map_values(|r: Vec<Term>| terms_model(r@))
}

/// An `INSERT`: its rendered text, the last part of its table's name (`None` for a target that is no table), the
/// last parts of its column names, and its rows.
#[derive(Debug)]
pub struct InsertTree {
    pub table: Option<String>,
    pub columns: Vec<String>,
    pub source: InsertSource,
}

pub ghost struct InsertModel {
    pub table: Option<Seq<char>>,
    pub columns: Seq<Seq<char>>,
    pub source: InsertSourceModel,
}

impl View for InsertTree {
    type V = InsertModel;

    open spec fn view(&self) -> InsertModel {
        InsertModel {
            table: text_option(self.table),
            columns: views(self.columns@),
            source: match self.source {
                InsertSource::Missing => InsertSourceModel::Missing,
                InsertSource::Values(rows) => InsertSourceModel::Values(value_rows_model(rows@)),
                InsertSource::Query => InsertSourceModel::Query,
            },
        }
    }
}

pub open spec fn targets_model(targets: Seq<Vec<String>>) -> Seq<Seq<Seq<char>>> {
    targets.map_values(|t: Vec<String>| views(t@))
}

/// An `UPDATE`. `targets` are the columns each assignment sets; `joined` says that it has a
/// `FROM` of its own.
#[derive(Debug)]
pub struct UpdateTree {
    pub target: FromItem,
    pub joined: bool,
    pub targets: Vec<Vec<String>>,
    pub selection: Option<Term>,
}

pub ghost struct UpdateModel {
    pub target: FromModel,
    pub joined: bool,
    pub targets: Seq<Seq<Seq<char>>>,
    pub selection: Option<TermModel>,
}

impl View for UpdateTree {
    type V = UpdateModel;

    open spec fn view(&self) -> UpdateModel {
        UpdateModel {
            target: self.target@,
            joined: self.joined,
            targets: targets_model(self.targets@),
            selection: term_option(self.selection),
        }
    }
}

/// A `DELETE`.
#[derive(Debug)]
pub struct DeleteTree {
    pub from: Vec<FromItem>,
    pub selection: Option<Term>,
}

pub ghost struct DeleteModel {
    pub from: Seq<FromModel>,
    pub selection: Option<TermModel>,
}

impl View for DeleteTree {
    type V = DeleteModel;

    open spec fn view(&self) -> DeleteModel {
        DeleteModel { from: from_model(self.from@), selection: term_option(self.selection) }
    }
}

/// An option of a column definition that a rule looks at.
#[derive(Clone, Copy, Debug, PartialEq, Eq, Structural)]
pub enum ColumnRule {
    PrimaryKey,
    Unique,
    ForeignKey,
    Other,
}

#[derive(Debug)]
pub struct Column {
    pub name: String,
    pub rules: Vec<ColumnRule>,
}

pub ghost struct ColumnModel {
    pub name: Seq<char>,
    pub rules: Seq<ColumnRule>,
}

impl View for Column {
    type V = ColumnModel;

    open spec fn view(&self) -> ColumnModel {
        ColumnModel { name: self.name@, rules: self.rules@ }
    }
}

pub open spec fn columns_model(columns: Seq<Column>) -> Seq<ColumnModel> {
    columns.map_values(|c: Column| c@)
}

/// A table-level constraint, with the terms of the index it makes.
#[derive(Debug)]
pub enum Constraint {
    PrimaryKey(Vec<Term>),
    Unique(Vec<Term>),
    ForeignKey,
    Other,
}

pub ghost enum ConstraintModel {
    PrimaryKey(Seq<TermModel>),
    Unique(Seq<TermModel>),
    ForeignKey,
    Other,
}

impl View for Constraint {
    type V = ConstraintModel;

    open spec fn view(&self) -> ConstraintModel {
        match self {
            Constraint::PrimaryKey(terms) => ConstraintModel::PrimaryKey(terms_model(terms@)),
            Constraint::Unique(terms) => ConstraintModel::Unique(terms_model(terms@)),
            Constraint::ForeignKey => ConstraintModel::ForeignKey,
            Constraint::Other => ConstraintModel::Other,
        }
    }
}

pub open spec fn constraints_model(constraints: Seq<Constraint>) -> Seq<ConstraintModel> {
    constraints.map_values(|c: Constraint| c@)
}

/// A `CREATE TABLE`: the rendered name, its last part, the columns and the constraints.
#[derive(Debug)]
pub struct TableTree {
    pub name: String,
    pub ident: String,
    pub columns: Vec<Column>,
    pub constraints: Vec<Constraint>,
}

pub ghost struct CreateTableModel {
    pub name: Seq<char>,
    pub ident: Seq<char>,
    pub columns: Seq<ColumnModel>,
    pub constraints: Seq<ConstraintModel>,
}

impl View for TableTree {
    type V = CreateTableModel;

    open spec fn view(&self) -> CreateTableModel {
        CreateTableModel {
            name: self.name@,
            ident: self.ident@,
            columns: columns_model(self.columns@),
            constraints: constraints_model(self.constraints@),
        }
    }
}

/// A statement.
#[derive(Debug)]
pub enum Sql {
    Query(Box<QueryTree>),
    Insert(Box<InsertTree>),
    Update(Box<UpdateTree>),
    Delete(Box<DeleteTree>),
    CreateTable(Box<TableTree>),
    Other,
}

pub ghost enum SqlModel {
    Query(QueryModel),
    Insert(InsertModel),
    Update(UpdateModel),
    Delete(DeleteModel),
    CreateTable(CreateTableModel),
    Other,
}

impl View for Sql {
    type V = SqlModel;

    open spec fn view(&self) -> SqlModel {
        match self {
            Sql::Query(q) => SqlModel::Query(q@),
            Sql::Insert(i) => SqlModel::Insert(i@),
            Sql::Update(u) => SqlModel::Update(u@),
            Sql::Delete(d) => SqlModel::Delete(d@),
            Sql::CreateTable(c) => SqlModel::CreateTable(c@),
            Sql::Other => SqlModel::Other,
        }
    }
}

} // verus!
