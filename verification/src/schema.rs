//! Table, column and foreign-key descriptors, as loaded by the
//! schema-introspection layer that surrounds the engine.

use vstd::prelude::*;
use crate::text::str_eq;

verus! {

/// The SQL type tag of a column, as far as the engine needs to tell scalar
/// values apart.
#[derive(Clone, Copy, Debug, PartialEq, Eq)]
pub enum SqlType {
    Bool,
    Int,
    Text,
}

/// A column descriptor.
#[derive(Debug, PartialEq, Eq)]
pub struct Column {
    pub name: String,
    pub sql_type: SqlType,
    /// Whether the column is part of the table's primary key.
    pub is_primary: bool,
    /// Whether the column carries a NOT NULL constraint.
    pub is_not_null: bool,
    /// Whether the column has a generated default (serial, identity, ...).
    pub has_generated_default: bool,
}

/// One foreign-key column pair: `local_column` of the owning table references
/// `referred_column` of `referred_table`.
#[derive(Debug, PartialEq, Eq)]
pub struct ForeignKeyPair {
    pub referred_table: String,
    pub local_column: String,
    pub referred_column: String,
}

/// A table descriptor: schema-qualified name, ordered columns, and the
/// foreign-key pairs the table holds toward other tables.
#[derive(Debug, PartialEq, Eq)]
pub struct Table {
    pub name: String,
    pub columns: Vec<Column>,
    pub foreign_keys: Vec<ForeignKeyPair>,
}

/// The predicate selecting columns outside the primary key.
pub open spec fn non_primary_pred() -> spec_fn(Column) -> bool {
    |c: Column| !c.is_primary
}

/// The predicate selecting primary-key columns.
pub open spec fn primary_pred() -> spec_fn(Column) -> bool {
    |c: Column| c.is_primary
}

/// The predicate selecting foreign-key pairs that refer to `referred`.
pub open spec fn refers_to(referred: Seq<char>) -> spec_fn(ForeignKeyPair) -> bool {
    |f: ForeignKeyPair| f.referred_table@ == referred
}

/// The mathematical content of a table descriptor.
pub struct TableModel {
    pub name: Seq<char>,
    pub columns: Seq<Column>,
    pub foreign_keys: Seq<ForeignKeyPair>,
}

impl View for Table {
    type V = TableModel;

    open spec fn view(&self) -> TableModel {
        TableModel { name: self.name@, columns: self.columns@, foreign_keys: self.foreign_keys@ }
    }
}

impl TableModel {
    /// Column names are distinct: a record lookup by name is unambiguous.
    pub open spec fn wf(self) -> bool {
        forall|i: int, j: int|
            0 <= i < j < self.columns.len() ==> self.columns[i].name@ != self.columns[j].name@
    }

    /// The columns outside the primary key, in table order.
    pub open spec fn non_primary_columns(self) -> Seq<Column> {
        self.columns.filter(non_primary_pred())
    }

    /// The primary-key columns, in table order.
    pub open spec fn primary_columns(self) -> Seq<Column> {
        self.columns.filter(primary_pred())
    }

    /// The foreign-key pairs of this table that refer to `referred`.
    pub open spec fn fk_pairs_to(self, referred: Seq<char>) -> Seq<ForeignKeyPair> {
        self.foreign_keys.filter(refers_to(referred))
    }
}

impl Column {
    /// An equal copy of the column descriptor.
    pub fn clone_column(&self) -> (r: Column)
        ensures
            r == *self,
    {
        Column {
            name: self.name.clone(),
            sql_type: self.sql_type,
            is_primary: self.is_primary,
            is_not_null: self.is_not_null,
            has_generated_default: self.has_generated_default,
        }
    }
}

impl ForeignKeyPair {
    /// An equal copy of the pair.
    pub fn clone_pair(&self) -> (r: ForeignKeyPair)
        ensures
            r == *self,
    {
        ForeignKeyPair {
            referred_table: self.referred_table.clone(),
            local_column: self.local_column.clone(),
            referred_column: self.referred_column.clone(),
        }
    }
}

impl Table {
    /// A copy of the table descriptor with the same content.
    pub fn clone_table(&self) -> (r: Table)
        ensures
            r@ == self@,
    {
        let mut columns: Vec<Column> = Vec::new();
        let mut i: usize = 0;
        while i < self.columns.len()
            invariant
                i <= self.columns.len(),
                columns@.len() == i,
                forall|k: int| 0 <= k < i ==> columns@[k] == self.columns@[k],
            decreases self.columns.len() - i,
        {
            columns.push(self.columns[i].clone_column());
            i += 1;
        }
        let mut foreign_keys: Vec<ForeignKeyPair> = Vec::new();
        let mut j: usize = 0;
        while j < self.foreign_keys.len()
            invariant
                j <= self.foreign_keys.len(),
                foreign_keys@.len() == j,
                forall|k: int| 0 <= k < j ==> foreign_keys@[k] == self.foreign_keys@[k],
            decreases self.foreign_keys.len() - j,
        {
            foreign_keys.push(self.foreign_keys[j].clone_pair());
            j += 1;
        }
        let r = Table { name: self.name.clone(), columns, foreign_keys };
        proof {
            assert(r.columns@ =~= self.columns@);
            assert(r.foreign_keys@ =~= self.foreign_keys@);
        }
        r
    }
}

/// The first table in `tables` named `name`, from position `i` on.
pub open spec fn spec_find_table_from(tables: Seq<Table>, name: Seq<char>, i: int) -> Option<Table>
    decreases tables.len() - i,
{
    if i >= tables.len() {
        None
    } else if tables[i].name@ == name {
        Some(tables[i])
    } else {
        spec_find_table_from(tables, name, i + 1)
    }
}

/// The first table in `tables` named `name`, if any.
pub open spec fn spec_find_table(tables: Seq<Table>, name: Seq<char>) -> Option<Table> {
    spec_find_table_from(tables, name, 0)
}

/// Finds the table descriptor named `name`.
pub fn get_table<'a>(tables: &'a Vec<Table>, name: &str) -> (r: Option<&'a Table>)
    ensures
        match r {
            Some(t) => spec_find_table(tables@, name@) == Some(*t),
            None => spec_find_table(tables@, name@) is None,
        },
{
    let n = tables.len();
    let mut i: usize = 0;
    while i < n
        invariant
            n == tables@.len(),
            i <= n,
            spec_find_table(tables@, name@) == spec_find_table_from(tables@, name@, i as int),
        decreases n - i,
    {
        if str_eq(tables[i].name.as_str(), name) {
            return Some(&tables[i]);
        }
        i += 1;
    }
    None
}

} // verus!
