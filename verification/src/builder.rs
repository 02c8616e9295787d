//! The statement builders: from a table descriptor and a record (or a batch
//! of records) to one typed [`Statement`].
//!
//! Every builder keeps the column lists and the parameter lists aligned, and
//! reports a missing value as a precondition-violation error instead of
//! binding garbage.

use vstd::prelude::*;
use crate::error::IntelError;
use crate::record::Record;
use crate::record::spec_get;
use crate::record::views_of;
use crate::schema::Column;
use crate::schema::Table;
use crate::schema::TableModel;
use crate::schema::non_primary_pred;
use crate::schema::primary_pred;
use crate::statement::Statement;
use crate::statement::StatementModel;
use crate::statement::push_values;
use crate::value::Value;

verus! {

/// The name of a column, as characters.
pub open spec fn name_of() -> spec_fn(Column) -> Seq<char> {
    |c: Column| c.name@
}

/// Whether `rec` has no usable value under `name`: the value is absent or
/// the SQL null.
pub open spec fn nil_at(rec: Seq<(Seq<char>, Value)>, name: Seq<char>) -> bool {
    match spec_get(rec, name) {
        None => true,
        Some(v) => v is Nil,
    }
}

/// Whether `name` is absent or null in every row of the batch.
pub open spec fn all_nil(rows: Seq<Seq<(Seq<char>, Value)>>, name: Seq<char>) -> bool {
    forall|r: int| 0 <= r < rows.len() ==> nil_at(rows[r], name)
}

/// The values of `rec` at `cols`, in column order.
pub open spec fn row_values(rec: Seq<(Seq<char>, Value)>, cols: Seq<Column>) -> Seq<Value> {
    cols.map_values(|c: Column| spec_get(rec, c.name@)->0)
}

/// The predicate selecting the columns an insert binds: the non-primary
/// columns, except one that is not-null, has a generated default, and whose
/// value is absent or null across the whole batch — omitting it lets the
/// database fill the default in instead of violating the constraint.
pub open spec fn insert_pred(rows: Seq<Seq<(Seq<char>, Value)>>) -> spec_fn(Column) -> bool {
    |c: Column| !c.is_primary && !(c.is_not_null && c.has_generated_default && all_nil(
        rows,
        c.name@,
    ))
}

/// The column list of an insert statement for `rows` against `t`.
pub open spec fn insert_columns(t: TableModel, rows: Seq<Seq<(Seq<char>, Value)>>) -> Seq<Column> {
    t.columns.filter(insert_pred(rows))
}

/// Whether every row binds a value for every column the insert lists.
pub open spec fn insert_ok(t: TableModel, rows: Seq<Seq<(Seq<char>, Value)>>) -> bool {
    forall|i: int, r: int|
        0 <= i < insert_columns(t, rows).len() && 0 <= r < rows.len() ==> #[trigger] spec_get(
            rows[r],
            insert_columns(t, rows)[i].name@,
        ) is Some
}

/// The insert statement for `rows` against `t`: one values tuple per row,
/// parameters row-major.
pub open spec fn insert_model(t: TableModel, rows: Seq<Seq<(Seq<char>, Value)>>) -> StatementModel {
    StatementModel::Insert {
        table: t.name,
        columns: insert_columns(t, rows).map_values(name_of()),
        rows: rows.map_values(|rec: Seq<(Seq<char>, Value)>| row_values(rec, insert_columns(t, rows))),
    }
}

/// Whether `name` is absent or null in every row of the batch.
pub fn are_all_nil(rows: &Vec<Record>, name: &str) -> (b: bool)
    ensures
        b == all_nil(views_of(rows@), name@),
{
    let ghost rv = views_of(rows@);
    let n = rows.len();
    let mut r: usize = 0;
    while r < n
        invariant
            n == rows@.len(),
            r <= n,
            rv == views_of(rows@),
            forall|k: int| 0 <= k < r ==> nil_at(rv[k], name@),
        decreases n - r,
    {
        match rows[r].get_value(name) {
            None => {},
            Some(v) => {
                if !v.is_nil() {
                    proof {
                        assert(!nil_at(rv[r as int], name@));
                    }
                    return false;
                }
            },
        }
        r += 1;
    }
    true
}

/// Builds the insert statement for a batch of rows: `INSERT INTO t
/// (columns) VALUES (...), ... RETURNING *`.
///
/// The column list omits a not-null generated-default column whose value is
/// absent or null in every row; every listed column must be bound by every
/// row, else the build fails with a precondition-violation error.
pub fn insert_statement(table: &Table, rows: &Vec<Record>) -> (r: Result<Statement, IntelError>)
    ensures
        r is Ok <==> insert_ok(table@, views_of(rows@)),
        r matches Ok(s) ==> s@ == insert_model(table@, views_of(rows@)),
        r matches Err(e) ==> (e matches IntelError::MissingColumnValue { table: t, column: c }
            && t@ == table@.name && exists|i: int, rr: int|
            0 <= i < insert_columns(table@, views_of(rows@)).len() && 0 <= rr < rows@.len()
                && insert_columns(table@, views_of(rows@))[i].name@ == c@ && spec_get(
                views_of(rows@)[rr],
                c@,
            ) is None),
{
    let ghost rv = views_of(rows@);
    let ghost pred = insert_pred(rv);
    let ghost cs = table@.columns;
    let ghost ics = insert_columns(table@, rv);
    let ncols = table.columns.len();
    let mut columns: Vec<String> = Vec::new();
    let mut i: usize = 0;
    while i < ncols
        invariant
            ncols == cs.len(),
            i <= ncols,
            cs == table@.columns,
            rv == views_of(rows@),
            pred == insert_pred(rv),
            columns@.len() == cs.take(i as int).filter(pred).len(),
            forall|k: int|
                0 <= k < columns@.len() ==> columns@[k] == cs.take(i as int).filter(pred)[k].name,
        decreases ncols - i,
    {
        proof {
            assert(cs.take(i as int + 1) =~= cs.take(i as int).push(cs[i as int]));
            cs.take(i as int).lemma_filter_push(cs[i as int], pred);
        }
        let c = &table.columns[i];
        if !c.is_primary {
            let skip = c.is_not_null && c.has_generated_default && are_all_nil(
                rows,
                c.name.as_str(),
            );
            proof {
                assert(pred(cs[i as int]) == !skip);
            }
            if !skip {
                columns.push(c.name.clone());
            }
        } else {
            proof {
                assert(!pred(cs[i as int]));
            }
        }
        i += 1;
    }
    proof {
        assert(cs.take(ncols as int) =~= cs);
        assert(columns@.len() == ics.len());
        assert(forall|k: int| 0 <= k < ics.len() ==> columns@[k] == ics[k].name);
    }
    let nrows = rows.len();
    let mut out_rows: Vec<Vec<Value>> = Vec::new();
    let mut r: usize = 0;
    while r < nrows
        invariant
            nrows == rows@.len(),
            r <= nrows,
            rv == views_of(rows@),
            ics == insert_columns(table@, rv),
            columns@.len() == ics.len(),
            forall|k: int| 0 <= k < ics.len() ==> columns@[k] == ics[k].name,
            out_rows@.len() == r,
            forall|k: int| 0 <= k < r ==> out_rows@[k]@ == row_values(rv[k], ics),
            forall|k: int, ci: int|
                0 <= k < r && 0 <= ci < ics.len() ==> #[trigger] spec_get(
                    rv[k],
                    ics[ci].name@,
                ) is Some,
        decreases nrows - r,
    {
        let mut vals: Vec<Value> = Vec::new();
        let mut j: usize = 0;
        while j < columns.len()
            invariant
                nrows == rows@.len(),
                r < nrows,
                rv == views_of(rows@),
                ics == insert_columns(table@, rv),
                columns@.len() == ics.len(),
                forall|k: int| 0 <= k < ics.len() ==> columns@[k] == ics[k].name,
                j <= ics.len(),
                vals@.len() == j,
                forall|k: int| 0 <= k < j ==> vals@[k] == spec_get(rv[r as int], ics[k].name@)->0,
                forall|k: int| 0 <= k < j ==> spec_get(rv[r as int], #[trigger] ics[k].name@) is Some,
            decreases columns.len() - j,
        {
            match rows[r].get_value(columns[j].as_str()) {
                Some(v) => {
                    vals.push(v.clone_value());
                },
                None => {
                    proof {
                        assert(spec_get(rv[r as int], ics[j as int].name@) is None);
                        assert(!insert_ok(table@, rv));
                    }
                    return Err(
                        IntelError::MissingColumnValue {
                            table: table.name.clone(),
                            column: columns[j].clone(),
                        },
                    );
                },
            }
            j += 1;
        }
        proof {
            assert(vals@ =~= row_values(rv[r as int], ics));
        }
        out_rows.push(vals);
        r += 1;
    }
    let s = Statement::Insert { table: table.name.clone(), columns, rows: out_rows };
    proof {
        let m = insert_model(table@, rv);
        assert(s@ matches StatementModel::Insert { table: st, columns: sc, rows: sr } && st
            == table@.name && sc =~= ics.map_values(name_of()) && sr =~= rv.map_values(
            |rec: Seq<(Seq<char>, Value)>| row_values(rec, ics),
        ));
        assert(s@ == m);
    }
    Ok(s)
}

/// Whether `rec` binds a value for every column of `t`.
pub open spec fn covers_all(t: TableModel, rec: Seq<(Seq<char>, Value)>) -> bool {
    forall|i: int|
        0 <= i < t.columns.len() ==> spec_get(rec, #[trigger] t.columns[i].name@) is Some
}

/// Whether `rec` binds a value for every primary-key column of `t`.
pub open spec fn covers_primary(t: TableModel, rec: Seq<(Seq<char>, Value)>) -> bool {
    forall|i: int|
        0 <= i < t.columns.len() && t.columns[i].is_primary ==> spec_get(
            rec,
            #[trigger] t.columns[i].name@,
        ) is Some
}

/// The update statement for `rec` against `t`: SET over the non-primary
/// columns, WHERE over the primary-key columns, key values bound after the
/// SET values.
pub open spec fn update_model(t: TableModel, rec: Seq<(Seq<char>, Value)>) -> StatementModel {
    StatementModel::Update {
        table: t.name,
        set_columns: t.non_primary_columns().map_values(name_of()),
        set_values: row_values(rec, t.non_primary_columns()),
        key_columns: t.primary_columns().map_values(name_of()),
        key_values: row_values(rec, t.primary_columns()),
    }
}

/// The delete statement for `rec` against `t`: WHERE over the primary-key
/// columns.
pub open spec fn delete_model(t: TableModel, rec: Seq<(Seq<char>, Value)>) -> StatementModel {
    StatementModel::Delete {
        table: t.name,
        key_columns: t.primary_columns().map_values(name_of()),
        key_values: row_values(rec, t.primary_columns()),
    }
}

/// Builds the update statement for one record: `UPDATE t SET ... WHERE
/// key ... RETURNING *`.
///
/// Every column of the table must be bound: the non-primary values feed the
/// SET clause, the primary-key values the WHERE clause.
pub fn update_statement(table: &Table, record: &Record) -> (r: Result<Statement, IntelError>)
    ensures
        r is Ok <==> covers_all(table@, record@),
        r matches Ok(s) ==> s@ == update_model(table@, record@),
        r matches Err(e) ==> (e matches IntelError::MissingColumnValue { table: t, column: c }
            && t@ == table@.name && exists|i: int|
            0 <= i < table@.columns.len() && table@.columns[i].name@ == c@ && spec_get(
                record@,
                c@,
            ) is None),
{
    let ghost cs = table@.columns;
    let ghost np = non_primary_pred();
    let ghost pp = primary_pred();
    let ncols = table.columns.len();
    let mut set_columns: Vec<String> = Vec::new();
    let mut set_values: Vec<Value> = Vec::new();
    let mut key_columns: Vec<String> = Vec::new();
    let mut key_values: Vec<Value> = Vec::new();
    let mut i: usize = 0;
    while i < ncols
        invariant
            ncols == cs.len(),
            i <= ncols,
            cs == table@.columns,
            np == non_primary_pred(),
            pp == primary_pred(),
            set_columns@.len() == cs.take(i as int).filter(np).len(),
            set_values@.len() == cs.take(i as int).filter(np).len(),
            forall|k: int|
                0 <= k < set_columns@.len() ==> set_columns@[k] == cs.take(i as int).filter(
                    np,
                )[k].name,
            forall|k: int|
                0 <= k < set_values@.len() ==> set_values@[k] == spec_get(
                    record@,
                    cs.take(i as int).filter(np)[k].name@,
                )->0,
            key_columns@.len() == cs.take(i as int).filter(pp).len(),
            key_values@.len() == cs.take(i as int).filter(pp).len(),
            forall|k: int|
                0 <= k < key_columns@.len() ==> key_columns@[k] == cs.take(i as int).filter(
                    pp,
                )[k].name,
            forall|k: int|
                0 <= k < key_values@.len() ==> key_values@[k] == spec_get(
                    record@,
                    cs.take(i as int).filter(pp)[k].name@,
                )->0,
            forall|k: int| 0 <= k < i ==> spec_get(record@, #[trigger] cs[k].name@) is Some,
        decreases ncols - i,
    {
        proof {
            assert(cs.take(i as int + 1) =~= cs.take(i as int).push(cs[i as int]));
            cs.take(i as int).lemma_filter_push(cs[i as int], np);
            cs.take(i as int).lemma_filter_push(cs[i as int], pp);
        }
        let c = &table.columns[i];
        let value = match record.get_value(c.name.as_str()) {
            Some(v) => v.clone_value(),
            None => {
                return Err(
                    IntelError::MissingColumnValue {
                        table: table.name.clone(),
                        column: c.name.clone(),
                    },
                );
            },
        };
        if c.is_primary {
            key_columns.push(c.name.clone());
            key_values.push(value);
        } else {
            set_columns.push(c.name.clone());
            set_values.push(value);
        }
        i += 1;
    }
    proof {
        assert(cs.take(ncols as int) =~= cs);
    }
    let s = Statement::Update {
        table: table.name.clone(),
        set_columns,
        set_values,
        key_columns,
        key_values,
    };
    proof {
        assert(s@ matches StatementModel::Update {
            table: st,
            set_columns: sc,
            set_values: sv,
            key_columns: kc,
            key_values: kv,
        } && st == table@.name && sc =~= table@.non_primary_columns().map_values(name_of()) && sv
            =~= row_values(record@, table@.non_primary_columns()) && kc
            =~= table@.primary_columns().map_values(name_of()) && kv =~= row_values(
            record@,
            table@.primary_columns(),
        ));
        assert(s@ == update_model(table@, record@));
    }
    Ok(s)
}

/// Builds the delete statement for one record: `DELETE FROM t WHERE key ...
/// RETURNING *`. Every primary-key column must be bound.
pub fn delete_statement(table: &Table, record: &Record) -> (r: Result<Statement, IntelError>)
    ensures
        r is Ok <==> covers_primary(table@, record@),
        r matches Ok(s) ==> s@ == delete_model(table@, record@),
        r matches Err(e) ==> (e matches IntelError::MissingColumnValue { table: t, column: c }
            && t@ == table@.name && exists|i: int|
            0 <= i < table@.columns.len() && table@.columns[i].is_primary
                && table@.columns[i].name@ == c@ && spec_get(record@, c@) is None),
{
    let ghost cs = table@.columns;
    let ghost pp = primary_pred();
    let ncols = table.columns.len();
    let mut key_columns: Vec<String> = Vec::new();
    let mut key_values: Vec<Value> = Vec::new();
    let mut i: usize = 0;
    while i < ncols
        invariant
            ncols == cs.len(),
            i <= ncols,
            cs == table@.columns,
            pp == primary_pred(),
            key_columns@.len() == cs.take(i as int).filter(pp).len(),
            key_values@.len() == cs.take(i as int).filter(pp).len(),
            forall|k: int|
                0 <= k < key_columns@.len() ==> key_columns@[k] == cs.take(i as int).filter(
                    pp,
                )[k].name,
            forall|k: int|
                0 <= k < key_values@.len() ==> key_values@[k] == spec_get(
                    record@,
                    cs.take(i as int).filter(pp)[k].name@,
                )->0,
            forall|k: int|
                0 <= k < i && cs[k].is_primary ==> spec_get(record@, #[trigger] cs[k].name@) is Some,
        decreases ncols - i,
    {
        proof {
            assert(cs.take(i as int + 1) =~= cs.take(i as int).push(cs[i as int]));
            cs.take(i as int).lemma_filter_push(cs[i as int], pp);
        }
        let c = &table.columns[i];
        if c.is_primary {
            let value = match record.get_value(c.name.as_str()) {
                Some(v) => v.clone_value(),
                None => {
                    return Err(
                        IntelError::MissingColumnValue {
                            table: table.name.clone(),
                            column: c.name.clone(),
                        },
                    );
                },
            };
            key_columns.push(c.name.clone());
            key_values.push(value);
        }
        i += 1;
    }
    proof {
        assert(cs.take(ncols as int) =~= cs);
    }
    let s = Statement::Delete { table: table.name.clone(), key_columns, key_values };
    proof {
        assert(s@ matches StatementModel::Delete { table: st, key_columns: kc, key_values: kv }
            && st == table@.name && kc =~= table@.primary_columns().map_values(name_of()) && kv
            =~= row_values(record@, table@.primary_columns()));
        assert(s@ == delete_model(table@, record@));
    }
    Ok(s)
}

/// The delete statement for a list of single-column primary-key values:
/// `DELETE FROM t WHERE pk IN (...) RETURNING *`.
pub open spec fn delete_in_model(t: TableModel, ids: Seq<Value>) -> StatementModel {
    StatementModel::DeleteIn {
        table: t.name,
        key_column: t.primary_columns()[0].name@,
        key_values: ids,
    }
}

/// Builds the bulk delete statement over the table's single primary-key
/// column. A table with no primary key, or with a composite one, is
/// refused: the bulk delete path does not support either.
pub fn delete_in_statement(table: &Table, ids: &Vec<Value>) -> (r: Result<Statement, IntelError>)
    ensures
        r is Ok <==> table@.primary_columns().len() == 1,
        r matches Ok(s) ==> s@ == delete_in_model(table@, ids@),
        table@.primary_columns().len() == 0 ==> (r matches Err(e) && e matches
            IntelError::NoPrimaryKey { table: t } && t@ == table@.name),
        table@.primary_columns().len() > 1 ==> (r matches Err(e) && e matches
            IntelError::CompositePrimaryKey { table: t } && t@ == table@.name),
{
    let ghost cs = table@.columns;
    let ghost pp = primary_pred();
    let ncols = table.columns.len();
    let mut found: Option<usize> = None;
    let mut i: usize = 0;
    while i < ncols
        invariant
            ncols == cs.len(),
            i <= ncols,
            cs == table@.columns,
            pp == primary_pred(),
            match found {
                None => cs.take(i as int).filter(pp).len() == 0,
                Some(j) => j < i && cs.take(i as int).filter(pp) =~= seq![cs[j as int]],
            },
        decreases ncols - i,
    {
        proof {
            assert(cs.take(i as int + 1) =~= cs.take(i as int).push(cs[i as int]));
            cs.take(i as int).lemma_filter_push(cs[i as int], pp);
        }
        if table.columns[i].is_primary {
            if found.is_some() {
                proof {
                    cs.lemma_filter_take_len(pp, i as int + 1);
                }
                return Err(IntelError::CompositePrimaryKey { table: table.name.clone() });
            }
            found = Some(i);
        }
        i += 1;
    }
    proof {
        assert(cs.take(ncols as int) =~= cs);
    }
    let j = match found {
        Some(j) => j,
        None => {
            return Err(IntelError::NoPrimaryKey { table: table.name.clone() });
        },
    };
    let mut key_values: Vec<Value> = Vec::new();
    push_values(&mut key_values, ids);
    proof {
        assert(Seq::<Value>::empty() + ids@ =~= ids@);
    }
    let s = Statement::DeleteIn {
        table: table.name.clone(),
        key_column: table.columns[j].name.clone(),
        key_values,
    };
    proof {
        assert(s@ == delete_in_model(table@, ids@));
    }
    Ok(s)
}

/// The predicate selecting the columns a linker insert binds: the linker
/// table's primary-key columns (its two foreign keys), except one that is
/// not-null, has a generated default, and carries no usable value.
pub open spec fn linker_pred(rec: Seq<(Seq<char>, Value)>) -> spec_fn(Column) -> bool {
    |c: Column| c.is_primary && !(c.is_not_null && c.has_generated_default && nil_at(rec, c.name@))
}

/// The column list of a linker insert for `rec` against `t`.
pub open spec fn linker_columns(t: TableModel, rec: Seq<(Seq<char>, Value)>) -> Seq<Column> {
    t.columns.filter(linker_pred(rec))
}

/// Whether `rec` binds a value for every column the linker insert lists.
pub open spec fn linker_ok(t: TableModel, rec: Seq<(Seq<char>, Value)>) -> bool {
    forall|i: int|
        0 <= i < t.columns.len() && linker_pred(rec)(t.columns[i]) ==> #[trigger] spec_get(
            rec,
            t.columns[i].name@,
        ) is Some
}

/// The insert statement for a linker record against the linker table `t`.
pub open spec fn linker_insert_model(t: TableModel, rec: Seq<(Seq<char>, Value)>) -> StatementModel {
    StatementModel::Insert {
        table: t.name,
        columns: linker_columns(t, rec).map_values(name_of()),
        rows: seq![row_values(rec, linker_columns(t, rec))],
    }
}

/// Builds the insert statement for a linker record: the bound columns are
/// the linker table's primary-key columns, which hold its two foreign keys.
pub fn linker_insert_statement(table: &Table, record: &Record) -> (r: Result<
    Statement,
    IntelError,
>)
    ensures
        r is Ok <==> linker_ok(table@, record@),
        r matches Ok(s) ==> s@ == linker_insert_model(table@, record@),
        r matches Err(e) ==> (e matches IntelError::MissingColumnValue { table: t, column: c }
            && t@ == table@.name && exists|i: int|
            0 <= i < table@.columns.len() && table@.columns[i].name@ == c@ && spec_get(
                record@,
                c@,
            ) is None),
{
    let ghost cs = table@.columns;
    let ghost lp = linker_pred(record@);
    let ncols = table.columns.len();
    let mut columns: Vec<String> = Vec::new();
    let mut vals: Vec<Value> = Vec::new();
    let mut i: usize = 0;
    while i < ncols
        invariant
            ncols == cs.len(),
            i <= ncols,
            cs == table@.columns,
            lp == linker_pred(record@),
            columns@.len() == cs.take(i as int).filter(lp).len(),
            vals@.len() == cs.take(i as int).filter(lp).len(),
            forall|k: int|
                0 <= k < columns@.len() ==> columns@[k] == cs.take(i as int).filter(lp)[k].name,
            forall|k: int|
                0 <= k < vals@.len() ==> vals@[k] == spec_get(
                    record@,
                    cs.take(i as int).filter(lp)[k].name@,
                )->0,
            forall|k: int|
                0 <= k < i && lp(cs[k]) ==> #[trigger] spec_get(record@, cs[k].name@) is Some,
        decreases ncols - i,
    {
        proof {
            assert(cs.take(i as int + 1) =~= cs.take(i as int).push(cs[i as int]));
            cs.take(i as int).lemma_filter_push(cs[i as int], lp);
        }
        let c = &table.columns[i];
        if c.is_primary {
            match record.get_value(c.name.as_str()) {
                None => {
                    if c.is_not_null && c.has_generated_default {
                        proof {
                            assert(!lp(cs[i as int]));
                        }
                    } else {
                        proof {
                            assert(lp(cs[i as int]));
                            assert(!linker_ok(table@, record@));
                        }
                        return Err(
                            IntelError::MissingColumnValue {
                                table: table.name.clone(),
                                column: c.name.clone(),
                            },
                        );
                    }
                },
                Some(v) => {
                    let nil = v.is_nil();
                    if nil && c.is_not_null && c.has_generated_default {
                        proof {
                            assert(!lp(cs[i as int]));
                        }
                    } else {
                        proof {
                            assert(lp(cs[i as int]));
                        }
                        columns.push(c.name.clone());
                        vals.push(v.clone_value());
                    }
                },
            }
        } else {
            proof {
                assert(!lp(cs[i as int]));
            }
        }
        i += 1;
    }
    proof {
        assert(cs.take(ncols as int) =~= cs);
    }
    proof {
        assert(vals@ =~= row_values(record@, linker_columns(table@, record@)));
    }
    let mut out_rows: Vec<Vec<Value>> = Vec::new();
    out_rows.push(vals);
    let s = Statement::Insert { table: table.name.clone(), columns, rows: out_rows };
    proof {
        let lc = linker_columns(table@, record@);
        assert(s@ matches StatementModel::Insert { table: st, columns: sc, rows: sr } && st
            == table@.name && sc =~= lc.map_values(name_of()) && sr =~= seq![
            row_values(record@, lc),
        ]);
        assert(s@ == linker_insert_model(table@, record@));
    }
    Ok(s)
}

/// The content of the one-one record after the parent's referenced value
/// was propagated into the foreign-key column `fk_local`.
pub open spec fn upsert_lookup(
    orec: Seq<(Seq<char>, Value)>,
    fk_local: Seq<char>,
    mv: Value,
    x: Seq<char>,
) -> Option<Value> {
    if x == fk_local {
        Some(mv)
    } else {
        spec_get(orec, x)
    }
}

/// Whether the propagated record has no usable value under `name`.
pub open spec fn upsert_nil_at(
    orec: Seq<(Seq<char>, Value)>,
    fk_local: Seq<char>,
    mv: Value,
    name: Seq<char>,
) -> bool {
    match upsert_lookup(orec, fk_local, mv, name) {
        None => true,
        Some(v) => v is Nil,
    }
}

/// The predicate selecting the columns the upsert's insert part binds: all
/// columns of the child table, except a not-null generated-default column
/// with no usable value.
pub open spec fn upsert_pred(orec: Seq<(Seq<char>, Value)>, fk_local: Seq<char>, mv: Value) -> spec_fn(
    Column,
) -> bool {
    |c: Column| !(c.is_not_null && c.has_generated_default && upsert_nil_at(
        orec,
        fk_local,
        mv,
        c.name@,
    ))
}

/// The column list of the upsert's insert part.
pub open spec fn upsert_columns(
    t: TableModel,
    orec: Seq<(Seq<char>, Value)>,
    fk_local: Seq<char>,
    mv: Value,
) -> Seq<Column> {
    t.columns.filter(upsert_pred(orec, fk_local, mv))
}

/// The propagated record's values at `cols`, in column order.
pub open spec fn upsert_values(
    cols: Seq<Column>,
    orec: Seq<(Seq<char>, Value)>,
    fk_local: Seq<char>,
    mv: Value,
) -> Seq<Value> {
    cols.map_values(|c: Column| upsert_lookup(orec, fk_local, mv, c.name@)->0)
}

/// Whether the propagated record binds a value for every column of the
/// child table — the conflict-update SET clause covers them all.
pub open spec fn upsert_covers(
    t: TableModel,
    orec: Seq<(Seq<char>, Value)>,
    fk_local: Seq<char>,
    mv: Value,
) -> bool {
    forall|i: int|
        0 <= i < t.columns.len() ==> #[trigger] upsert_lookup(
            orec,
            fk_local,
            mv,
            t.columns[i].name@,
        ) is Some
}

/// The upsert statement for the one-one child `t`: insert the propagated
/// record, and on a conflict with the child's own primary key update every
/// column, scoped by the propagated foreign-key value.
pub open spec fn upsert_model(
    t: TableModel,
    orec: Seq<(Seq<char>, Value)>,
    fk: crate::schema::ForeignKeyPair,
    mv: Value,
) -> StatementModel {
    StatementModel::Upsert {
        table: t.name,
        insert_columns: upsert_columns(t, orec, fk.local_column@, mv).map_values(name_of()),
        insert_values: upsert_values(
            upsert_columns(t, orec, fk.local_column@, mv),
            orec,
            fk.local_column@,
            mv,
        ),
        conflict_columns: t.primary_columns().map_values(name_of()),
        update_columns: t.columns.map_values(name_of()),
        update_values: upsert_values(t.columns, orec, fk.local_column@, mv),
        scope_columns: seq![fk.local_column@],
        scope_values: seq![mv],
    }
}

/// Whether the one-one upsert can be built: exactly one foreign-key pair
/// from child to parent, a primary key on the child, the parent's
/// referenced value present, and every child column bound after
/// propagation.
pub open spec fn upsert_ok(
    main: TableModel,
    mrec: Seq<(Seq<char>, Value)>,
    t: TableModel,
    orec: Seq<(Seq<char>, Value)>,
) -> bool {
    &&& t.fk_pairs_to(main.name).len() == 1
    &&& t.primary_columns().len() >= 1
    &&& spec_get(mrec, t.fk_pairs_to(main.name)[0].referred_column@) is Some
    &&& upsert_covers(
        t,
        orec,
        t.fk_pairs_to(main.name)[0].local_column@,
        spec_get(mrec, t.fk_pairs_to(main.name)[0].referred_column@)->0,
    )
}

/// Builds the one-one upsert: propagates the main record's referenced value
/// into the child's foreign-key column, inserts the child row, and on a
/// conflict with the child's own primary key updates every column, scoped
/// to the row belonging to this parent.
pub fn upsert_statement(
    main_table: &Table,
    main_record: &Record,
    one_one_table: &Table,
    one_one_record: &Record,
) -> (r: Result<Statement, IntelError>)
    ensures
        r is Ok <==> upsert_ok(main_table@, main_record@, one_one_table@, one_one_record@),
        r matches Ok(s) ==> s@ == upsert_model(
            one_one_table@,
            one_one_record@,
            one_one_table@.fk_pairs_to(main_table@.name)[0],
            spec_get(
                main_record@,
                one_one_table@.fk_pairs_to(main_table@.name)[0].referred_column@,
            )->0,
        ),
        one_one_table@.fk_pairs_to(main_table@.name).len() == 0 ==> (r matches Err(e) && e matches
            IntelError::NoForeignKeyPair {
                table: t,
                referred_table: rt,
            } && t@ == one_one_table@.name && rt@ == main_table@.name),
        one_one_table@.fk_pairs_to(main_table@.name).len() > 1 ==> (r matches Err(e) && e matches
            IntelError::AmbiguousForeignKeyPair {
                table: t,
                referred_table: rt,
            } && t@ == one_one_table@.name && rt@ == main_table@.name),
        one_one_table@.fk_pairs_to(main_table@.name).len() == 1
            && one_one_table@.primary_columns().len() == 0 ==> (r matches Err(e) && e matches
            IntelError::NoPrimaryKey { table: t } && t@ == one_one_table@.name),
        one_one_table@.fk_pairs_to(main_table@.name).len() == 1
            && one_one_table@.primary_columns().len() >= 1 && spec_get(
            main_record@,
            one_one_table@.fk_pairs_to(main_table@.name)[0].referred_column@,
        ) is None ==> (r matches Err(e) && e matches IntelError::MissingColumnValue {
            table: t,
            column: c,
        } && t@ == main_table@.name && c@ == one_one_table@.fk_pairs_to(
            main_table@.name,
        )[0].referred_column@),
        !(r is Ok) && one_one_table@.fk_pairs_to(main_table@.name).len() == 1
            && one_one_table@.primary_columns().len() >= 1 && spec_get(
            main_record@,
            one_one_table@.fk_pairs_to(main_table@.name)[0].referred_column@,
        ) is Some ==> (r matches Err(e) && e matches IntelError::MissingColumnValue {
            table: t,
            column: c,
        } && t@ == one_one_table@.name && exists|i: int|
            0 <= i < one_one_table@.columns.len() && one_one_table@.columns[i].name@ == c@
                && upsert_lookup(
                one_one_record@,
                one_one_table@.fk_pairs_to(main_table@.name)[0].local_column@,
                spec_get(
                    main_record@,
                    one_one_table@.fk_pairs_to(main_table@.name)[0].referred_column@,
                )->0,
                c@,
            ) is None),
{
    let ghost ot = one_one_table@;
    let ghost cs = one_one_table@.columns;
    let fk = match crate::resolver::find_fk_pair(one_one_table, main_table.name.as_str()) {
        Ok(f) => f,
        Err(e) => {
            return Err(e);
        },
    };
    proof {
        assert(one_one_table@.fk_pairs_to(main_table@.name).len() == 1);
        assert(*fk == one_one_table@.fk_pairs_to(main_table@.name)[0]);
    }
    let ghost local = fk.local_column@;
    let ghost pp = primary_pred();
    let ncols = one_one_table.columns.len();
    let mut conflict_columns: Vec<String> = Vec::new();
    let mut i: usize = 0;
    while i < ncols
        invariant
            ncols == cs.len(),
            i <= ncols,
            cs == one_one_table@.columns,
            pp == primary_pred(),
            conflict_columns@.len() == cs.take(i as int).filter(pp).len(),
            forall|k: int|
                0 <= k < conflict_columns@.len() ==> conflict_columns@[k] == cs.take(
                    i as int,
                ).filter(pp)[k].name,
        decreases ncols - i,
    {
        proof {
            assert(cs.take(i as int + 1) =~= cs.take(i as int).push(cs[i as int]));
            cs.take(i as int).lemma_filter_push(cs[i as int], pp);
        }
        let c = &one_one_table.columns[i];
        if c.is_primary {
            conflict_columns.push(c.name.clone());
        }
        i += 1;
    }
    proof {
        assert(cs.take(ncols as int) =~= cs);
    }
    if conflict_columns.is_empty() {
        return Err(IntelError::NoPrimaryKey { table: one_one_table.name.clone() });
    }
    let mv = match main_record.get_value(fk.referred_column.as_str()) {
        Some(v) => v.clone_value(),
        None => {
            return Err(
                IntelError::MissingColumnValue {
                    table: main_table.name.clone(),
                    column: fk.referred_column.clone(),
                },
            );
        },
    };
    let mut propagated = one_one_record.clone_record();
    propagated.insert_value(fk.local_column.as_str(), mv.clone_value());
    proof {
        assert forall|x: Seq<char>| true implies spec_get(propagated@, x) == upsert_lookup(
            one_one_record@,
            local,
            mv,
            x,
        ) by {}
    }
    let ghost up = upsert_pred(one_one_record@, local, mv);
    let mut insert_columns_v: Vec<String> = Vec::new();
    let mut insert_values: Vec<Value> = Vec::new();
    let mut i2: usize = 0;
    while i2 < ncols
        invariant
            ncols == cs.len(),
            i2 <= ncols,
            cs == one_one_table@.columns,
            ot == one_one_table@,
            ot.fk_pairs_to(main_table@.name).len() == 1,
            local == ot.fk_pairs_to(main_table@.name)[0].local_column@,
            spec_get(main_record@, ot.fk_pairs_to(main_table@.name)[0].referred_column@) == Some(
                mv,
            ),
            ot.primary_columns().len() >= 1,
            up == upsert_pred(one_one_record@, local, mv),
            forall|x: Seq<char>| spec_get(propagated@, x) == upsert_lookup(
                one_one_record@,
                local,
                mv,
                x,
            ),
            insert_columns_v@.len() == cs.take(i2 as int).filter(up).len(),
            insert_values@.len() == cs.take(i2 as int).filter(up).len(),
            forall|k: int|
                0 <= k < insert_columns_v@.len() ==> insert_columns_v@[k] == cs.take(
                    i2 as int,
                ).filter(up)[k].name,
            forall|k: int|
                0 <= k < insert_values@.len() ==> insert_values@[k] == upsert_lookup(
                    one_one_record@,
                    local,
                    mv,
                    cs.take(i2 as int).filter(up)[k].name@,
                )->0,
        decreases ncols - i2,
    {
        proof {
            assert(cs.take(i2 as int + 1) =~= cs.take(i2 as int).push(cs[i2 as int]));
            cs.take(i2 as int).lemma_filter_push(cs[i2 as int], up);
        }
        let c = &one_one_table.columns[i2];
        match propagated.get_value(c.name.as_str()) {
            None => {
                if c.is_not_null && c.has_generated_default {
                    proof {
                        assert(!up(cs[i2 as int]));
                    }
                } else {
                    proof {
                        assert(upsert_lookup(
                            one_one_record@,
                            local,
                            mv,
                            ot.columns[i2 as int].name@,
                        ) is None);
                        assert(!upsert_covers(ot, one_one_record@, local, mv));
                    }
                    return Err(
                        IntelError::MissingColumnValue {
                            table: one_one_table.name.clone(),
                            column: c.name.clone(),
                        },
                    );
                }
            },
            Some(v) => {
                let nil = v.is_nil();
                if nil && c.is_not_null && c.has_generated_default {
                    proof {
                        assert(!up(cs[i2 as int]));
                    }
                } else {
                    proof {
                        assert(up(cs[i2 as int]));
                    }
                    insert_columns_v.push(c.name.clone());
                    insert_values.push(v.clone_value());
                }
            },
        }
        i2 += 1;
    }
    proof {
        assert(cs.take(ncols as int) =~= cs);
    }
    let mut update_columns: Vec<String> = Vec::new();
    let mut update_values: Vec<Value> = Vec::new();
    let mut i3: usize = 0;
    while i3 < ncols
        invariant
            ncols == cs.len(),
            i3 <= ncols,
            cs == one_one_table@.columns,
            ot == one_one_table@,
            ot.fk_pairs_to(main_table@.name).len() == 1,
            local == ot.fk_pairs_to(main_table@.name)[0].local_column@,
            spec_get(main_record@, ot.fk_pairs_to(main_table@.name)[0].referred_column@) == Some(
                mv,
            ),
            ot.primary_columns().len() >= 1,
            forall|x: Seq<char>| spec_get(propagated@, x) == upsert_lookup(
                one_one_record@,
                local,
                mv,
                x,
            ),
            update_columns@.len() == i3,
            update_values@.len() == i3,
            forall|k: int| 0 <= k < i3 ==> update_columns@[k] == cs[k].name,
            forall|k: int|
                0 <= k < i3 ==> update_values@[k] == upsert_lookup(
                    one_one_record@,
                    local,
                    mv,
                    cs[k].name@,
                )->0,
            forall|k: int|
                0 <= k < i3 ==> #[trigger] upsert_lookup(
                    one_one_record@,
                    local,
                    mv,
                    cs[k].name@,
                ) is Some,
        decreases ncols - i3,
    {
        let c = &one_one_table.columns[i3];
        match propagated.get_value(c.name.as_str()) {
            None => {
                proof {
                    assert(upsert_lookup(
                        one_one_record@,
                        local,
                        mv,
                        ot.columns[i3 as int].name@,
                    ) is None);
                    assert(!upsert_covers(ot, one_one_record@, local, mv));
                }
                return Err(
                    IntelError::MissingColumnValue {
                        table: one_one_table.name.clone(),
                        column: c.name.clone(),
                    },
                );
            },
            Some(v) => {
                update_columns.push(c.name.clone());
                update_values.push(v.clone_value());
            },
        }
        i3 += 1;
    }
    let mut scope_columns: Vec<String> = Vec::new();
    scope_columns.push(fk.local_column.clone());
    let mut scope_values: Vec<Value> = Vec::new();
    scope_values.push(mv.clone_value());
    let s = Statement::Upsert {
        table: one_one_table.name.clone(),
        insert_columns: insert_columns_v,
        insert_values,
        conflict_columns,
        update_columns,
        update_values,
        scope_columns,
        scope_values,
    };
    proof {
        let ucs = upsert_columns(ot, one_one_record@, local, mv);
        assert(s@ matches StatementModel::Upsert {
            table: st,
            insert_columns: ic,
            insert_values: iv,
            conflict_columns: cc,
            update_columns: uc,
            update_values: uv,
            scope_columns: scc,
            scope_values: scv,
        } && st == ot.name && ic =~= ucs.map_values(name_of()) && iv =~= upsert_values(
            ucs,
            one_one_record@,
            local,
            mv,
        ) && cc =~= ot.primary_columns().map_values(name_of()) && uc =~= ot.columns.map_values(
            name_of(),
        ) && uv =~= upsert_values(ot.columns, one_one_record@, local, mv) && scc =~= seq![local]
            && scv =~= seq![mv]);
        assert(s@ == upsert_model(
            ot,
            one_one_record@,
            ot.fk_pairs_to(main_table@.name)[0],
            spec_get(main_record@, ot.fk_pairs_to(main_table@.name)[0].referred_column@)->0,
        ));
    }
    Ok(s)
}

} // verus!
