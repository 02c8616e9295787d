//! The typed intermediate form of one SQL statement: operation kind, table,
//! column lists and parameter values. A statement value is rendered to
//! dialect-specific SQL text by [`crate::render`]; its parameters are bound
//! positionally, `$1` first, in exactly the order [`Statement::params`]
//! returns them.

use vstd::prelude::*;
use crate::value::Value;

verus! {

/// The family of SQL operation a statement belongs to.
#[derive(Clone, Copy, Debug, PartialEq, Eq, Structural)]
pub enum StatementKind {
    Insert,
    Update,
    Delete,
    Upsert,
}

/// A parameterized SQL statement against one table.
#[derive(Debug, PartialEq, Eq)]
pub enum Statement {
    /// `INSERT INTO table (columns) VALUES (...), ... RETURNING *`, one
    /// values tuple per row.
    Insert { table: String, columns: Vec<String>, rows: Vec<Vec<Value>> },
    /// `UPDATE table SET ... WHERE key AND ... RETURNING *`.
    Update {
        table: String,
        set_columns: Vec<String>,
        set_values: Vec<Value>,
        key_columns: Vec<String>,
        key_values: Vec<Value>,
    },
    /// `DELETE FROM table WHERE key AND ... RETURNING *`.
    Delete { table: String, key_columns: Vec<String>, key_values: Vec<Value> },
    /// `DELETE FROM table WHERE key IN (...) RETURNING *`.
    DeleteIn { table: String, key_column: String, key_values: Vec<Value> },
    /// `INSERT ... ON CONFLICT (conflict) DO UPDATE SET ... WHERE scope
    /// RETURNING *`; the scope columns are qualified with the table name.
    Upsert {
        table: String,
        insert_columns: Vec<String>,
        insert_values: Vec<Value>,
        conflict_columns: Vec<String>,
        update_columns: Vec<String>,
        update_values: Vec<Value>,
        scope_columns: Vec<String>,
        scope_values: Vec<Value>,
    },
}

/// The mathematical content of a [`Statement`].
pub enum StatementModel {
    Insert { table: Seq<char>, columns: Seq<Seq<char>>, rows: Seq<Seq<Value>> },
    Update {
        table: Seq<char>,
        set_columns: Seq<Seq<char>>,
        set_values: Seq<Value>,
        key_columns: Seq<Seq<char>>,
        key_values: Seq<Value>,
    },
    Delete { table: Seq<char>, key_columns: Seq<Seq<char>>, key_values: Seq<Value> },
    DeleteIn { table: Seq<char>, key_column: Seq<char>, key_values: Seq<Value> },
    Upsert {
        table: Seq<char>,
        insert_columns: Seq<Seq<char>>,
        insert_values: Seq<Value>,
        conflict_columns: Seq<Seq<char>>,
        update_columns: Seq<Seq<char>>,
        update_values: Seq<Value>,
        scope_columns: Seq<Seq<char>>,
        scope_values: Seq<Value>,
    },
}

/// The character sequences of a list of column names.
pub open spec fn names_of(columns: Seq<String>) -> Seq<Seq<char>> {
    columns.map_values(|s: String| s@)
}

impl View for Statement {
    type V = StatementModel;

    open spec fn view(&self) -> StatementModel {
        match self {
            Statement::Insert { table, columns, rows } => StatementModel::Insert {
                table: table@,
                columns: names_of(columns@),
                rows: rows@.map_values(|r: Vec<Value>| r@),
            },
            Statement::Update { table, set_columns, set_values, key_columns, key_values } => {
                StatementModel::Update {
                    table: table@,
                    set_columns: names_of(set_columns@),
                    set_values: set_values@,
                    key_columns: names_of(key_columns@),
                    key_values: key_values@,
                }
            },
            Statement::Delete { table, key_columns, key_values } => StatementModel::Delete {
                table: table@,
                key_columns: names_of(key_columns@),
                key_values: key_values@,
            },
            Statement::DeleteIn { table, key_column, key_values } => StatementModel::DeleteIn {
                table: table@,
                key_column: key_column@,
                key_values: key_values@,
            },
            Statement::Upsert {
                table,
                insert_columns,
                insert_values,
                conflict_columns,
                update_columns,
                update_values,
                scope_columns,
                scope_values,
            } => StatementModel::Upsert {
                table: table@,
                insert_columns: names_of(insert_columns@),
                insert_values: insert_values@,
                conflict_columns: names_of(conflict_columns@),
                update_columns: names_of(update_columns@),
                update_values: update_values@,
                scope_columns: names_of(scope_columns@),
                scope_values: scope_values@,
            },
        }
    }
}

/// The flattened parameters of the first `i` rows, row-major.
pub open spec fn rows_params_prefix(rows: Seq<Seq<Value>>, i: int) -> Seq<Value>
    decreases i,
{
    if i <= 0 {
        Seq::empty()
    } else {
        rows_params_prefix(rows, i - 1) + rows[i - 1]
    }
}

/// The flattened parameters of an insert batch, row-major.
pub open spec fn rows_params(rows: Seq<Seq<Value>>) -> Seq<Value> {
    rows_params_prefix(rows, rows.len() as int)
}

impl StatementModel {
    /// The table the statement runs against.
    pub open spec fn table(self) -> Seq<char> {
        match self {
            StatementModel::Insert { table, .. } => table,
            StatementModel::Update { table, .. } => table,
            StatementModel::Delete { table, .. } => table,
            StatementModel::DeleteIn { table, .. } => table,
            StatementModel::Upsert { table, .. } => table,
        }
    }

    /// The operation family of the statement.
    pub open spec fn kind(self) -> StatementKind {
        match self {
            StatementModel::Insert { .. } => StatementKind::Insert,
            StatementModel::Update { .. } => StatementKind::Update,
            StatementModel::Delete { .. } => StatementKind::Delete,
            StatementModel::DeleteIn { .. } => StatementKind::Delete,
            StatementModel::Upsert { .. } => StatementKind::Upsert,
        }
    }

    /// The parameter list, in the order the placeholders are numbered:
    /// insert rows row-major; update SET values before key values; upsert
    /// insert values, then conflict-update values, then scope values.
    pub open spec fn params(self) -> Seq<Value> {
        match self {
            StatementModel::Insert { rows, .. } => rows_params(rows),
            StatementModel::Update { set_values, key_values, .. } => set_values + key_values,
            StatementModel::Delete { key_values, .. } => key_values,
            StatementModel::DeleteIn { key_values, .. } => key_values,
            StatementModel::Upsert { insert_values, update_values, scope_values, .. } => {
                insert_values + update_values + scope_values
            },
        }
    }

    /// Column lists and value lists agree in length.
    pub open spec fn wf(self) -> bool {
        match self {
            StatementModel::Insert { columns, rows, .. } => forall|r: int|
                0 <= r < rows.len() ==> #[trigger] rows[r].len() == columns.len(),
            StatementModel::Update { set_columns, set_values, key_columns, key_values, .. } => {
                set_values.len() == set_columns.len() && key_values.len() == key_columns.len()
            },
            StatementModel::Delete { key_columns, key_values, .. } => key_values.len()
                == key_columns.len(),
            StatementModel::DeleteIn { .. } => true,
            StatementModel::Upsert {
                insert_columns,
                insert_values,
                conflict_columns,
                update_columns,
                update_values,
                scope_columns,
                scope_values,
                ..
            } => {
                insert_values.len() == insert_columns.len() && update_values.len()
                    == update_columns.len() && scope_values.len() == scope_columns.len()
                    && conflict_columns.len() > 0
            },
        }
    }
}

/// Appends equal copies of `vs` to `out`.
pub fn push_values(out: &mut Vec<Value>, vs: &Vec<Value>)
    ensures
        final (out)@ == old(out)@ + vs@,
{
    proof {
        assert(out@ =~= out@ + vs@.take(0));
    }
    let mut i: usize = 0;
    while i < vs.len()
        invariant
            i <= vs@.len(),
            out@ == old(out)@ + vs@.take(i as int),
        decreases vs@.len() - i,
    {
        out.push(vs[i].clone_value());
        proof {
            assert((old(out)@ + vs@.take(i as int)).push(vs@[i as int]) =~= old(out)@ + vs@.take(
                i as int + 1,
            ));
        }
        i += 1;
    }
    proof {
        assert(old(out)@ + vs@.take(vs@.len() as int) =~= old(out)@ + vs@);
    }
}

impl Statement {
    /// The operation family of the statement.
    pub fn kind(&self) -> (k: StatementKind)
        ensures
            k == self@.kind(),
    {
        match self {
            Statement::Insert { .. } => StatementKind::Insert,
            Statement::Update { .. } => StatementKind::Update,
            Statement::Delete { .. } => StatementKind::Delete,
            Statement::DeleteIn { .. } => StatementKind::Delete,
            Statement::Upsert { .. } => StatementKind::Upsert,
        }
    }

    /// The table the statement runs against.
    pub fn table_name(&self) -> (r: &String)
        ensures
            r@ == self@.table(),
    {
        match self {
            Statement::Insert { table, .. } => table,
            Statement::Update { table, .. } => table,
            Statement::Delete { table, .. } => table,
            Statement::DeleteIn { table, .. } => table,
            Statement::Upsert { table, .. } => table,
        }
    }

    /// The ordered parameter list the statement binds, `$1` first.
    pub fn params(&self) -> (out: Vec<Value>)
        ensures
            out@ == self@.params(),
    {
        let mut out: Vec<Value> = Vec::new();
        match self {
            Statement::Insert { rows, .. } => {
                let ghost m = rows@.map_values(|r: Vec<Value>| r@);
                let n = rows.len();
                let mut i: usize = 0;
                while i < n
                    invariant
                        n == rows@.len(),
                        i <= n,
                        m == rows@.map_values(|r: Vec<Value>| r@),
                        out@ == rows_params_prefix(m, i as int),
                    decreases n - i,
                {
                    push_values(&mut out, &rows[i]);
                    proof {
                        assert(m[i as int] == rows@[i as int]@);
                    }
                    i += 1;
                }
            },
            Statement::Update { set_values, key_values, .. } => {
                push_values(&mut out, set_values);
                push_values(&mut out, key_values);
                proof {
                    assert(Seq::<Value>::empty() + set_values@ + key_values@ =~= set_values@
                        + key_values@);
                }
            },
            Statement::Delete { key_values, .. } => {
                push_values(&mut out, key_values);
                proof {
                    assert(Seq::<Value>::empty() + key_values@ =~= key_values@);
                }
            },
            Statement::DeleteIn { key_values, .. } => {
                push_values(&mut out, key_values);
                proof {
                    assert(Seq::<Value>::empty() + key_values@ =~= key_values@);
                }
            },
            Statement::Upsert { insert_values, update_values, scope_values, .. } => {
                push_values(&mut out, insert_values);
                push_values(&mut out, update_values);
                push_values(&mut out, scope_values);
                proof {
                    assert(Seq::<Value>::empty() + insert_values@ + update_values@ + scope_values@
                        =~= insert_values@ + update_values@ + scope_values@);
                }
            },
        }
        out
    }

    /// Whether the statement's column lists and value lists agree in
    /// length. Every statement the builders produce is well formed; an
    /// unverified caller can re-check before rendering.
    pub fn is_well_formed(&self) -> (r: bool)
        ensures
            r == self@.wf(),
    {
        match self {
            Statement::Insert { columns, rows, .. } => {
                let n = rows.len();
                let mut i: usize = 0;
                while i < n
                    invariant
                        n == rows@.len(),
                        i <= n,
                        self@ matches StatementModel::Insert { columns: mc2, rows: mr2, .. }
                            && mr2.len() == rows@.len() && mc2.len() == columns@.len() && (forall|
                            k: int,
                        | 0 <= k < mr2.len() ==> mr2[k] == (#[trigger] rows@[k])@),
                        forall|k: int|
                            0 <= k < i ==> (#[trigger] rows@[k])@.len() == columns@.len(),
                    decreases n - i,
                {
                    if rows[i].len() != columns.len() {
                        proof {
                            match self@ {
                                StatementModel::Insert { columns: mc, rows: mr, .. } => {
                                    assert(mr[i as int] == rows@[i as int]@);
                                    assert(mr[i as int].len() != mc.len());
                                },
                                _ => {},
                            }
                        }
                        return false;
                    }
                    i += 1;
                }
                proof {
                    let m = self@;
                    match m {
                        StatementModel::Insert { columns: mc, rows: mr, .. } => {
                            assert forall|k: int| 0 <= k < mr.len() implies #[trigger] mr[k].len()
                                == mc.len() by {
                                assert(mr[k] == rows@[k]@);
                            }
                        },
                        _ => {},
                    }
                }
                true
            },
            Statement::Update { set_columns, set_values, key_columns, key_values, .. } => {
                set_values.len() == set_columns.len() && key_values.len() == key_columns.len()
            },
            Statement::Delete { key_columns, key_values, .. } => key_values.len()
                == key_columns.len(),
            Statement::DeleteIn { .. } => true,
            Statement::Upsert {
                insert_columns,
                insert_values,
                conflict_columns,
                update_columns,
                update_values,
                scope_columns,
                scope_values,
                ..
            } => {
                insert_values.len() == insert_columns.len() && update_values.len()
                    == update_columns.len() && scope_values.len() == scope_columns.len()
                    && conflict_columns.len() > 0
            },
        }
    }
}

} // verus!
