//! Table classes: whether a table's rows are spread over the shards or all live on one.

use vstd::prelude::*;

use crate::text::{lookup, same};

verus! {

/// How a table is placed.
#[derive(Clone, Copy, Debug, PartialEq, Eq, Structural)]
pub enum TableClass {
    /// Rows are spread over the shards by their shard key.
    Sharded,
    /// All rows live on one shard, with full SQLite semantics.
    Global,
}

/// Table name, in lower case, to declared class; the last declaration of a name counts.
#[derive(Debug)]
pub struct TableClasses {
    entries: Vec<(String, TableClass)>,
}

/// The map that a list of declarations leaves behind.
pub open spec fn declared(entries: Seq<(String, TableClass)>) -> Map<Seq<char>, TableClass>
    decreases entries.len(),
{
    if entries.len() == 0 {
        Map::empty()
    } else {
        declared(entries.drop_last()).insert(entries.last().0@, entries.last().1)
    }
}

impl View for TableClasses {
    type V = Map<Seq<char>, TableClass>;

    closed spec fn view(&self) -> Map<Seq<char>, TableClass> {
        declared(self.entries@)
    }
}

impl TableClasses {
    /// No declarations.
    pub fn new() -> (r: TableClasses)
        ensures
            r@ == Map::<Seq<char>, TableClass>::empty(),
    {
        TableClasses { entries: Vec::new() }
    }

    /// Declares the class of a table.
    pub fn insert(&mut self, table: String, class: TableClass)
        ensures
            final(self)@ == old(self)@.insert(table@, class),
    {
        self.entries.push((table, class));
        assert(self.entries@.drop_last() =~= old(self).entries@);
    }

    /// The declared class of a table.
    pub fn get(&self, table: &str) -> (r: Option<TableClass>)
        ensures
            r == lookup(self@, table@),
    {
        let mut i: usize = self.entries.len();
        assert(self.entries@.take(self.entries@.len() as int) =~= self.entries@);
        while i > 0
            invariant
                i <= self.entries@.len(),
                lookup(declared(self.entries@.take(i as int)), table@) == lookup(self@, table@),
            decreases i,
        {
            let ghost upto = self.entries@.take(i as int);
            assert(upto.drop_last() =~= self.entries@.take(i as int - 1));
            assert(upto.last() == self.entries@[i as int - 1]);
            i = i - 1;
            if same(self.entries[i].0.as_str(), table) {
                return Some(self.entries[i].1);
            }
        }
        None
    }

    /// Whether a table has a declared class.
    pub fn contains_key(&self, table: &str) -> (r: bool)
        ensures
            r == self@.dom().contains(table@),
    {
        self.get(table).is_some()
    }
}

/// The class of a table: sharded, unless it is declared otherwise.
pub open spec fn declared_class(classes: Map<Seq<char>, TableClass>, table: Seq<char>) -> TableClass {
    match lookup(classes, table) {
        Some(class) => class,
        None => TableClass::Sharded,
    }
}

/// The class of a table.
pub fn class_of(classes: &TableClasses, table: &str) -> (r: TableClass)
    ensures
        r == declared_class(classes@, table@),
{
    match classes.get(table) {
        Some(class) => class,
        None => TableClass::Sharded,
    }
}

} // verus!
