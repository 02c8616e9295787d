//! Rendering a typed [`Statement`] to SQL text, with `$1`-style positional
//! placeholders numbered in exactly the order [`Statement::params`] returns
//! the values.

use vstd::prelude::*;
use vstd::string::StringExecFns;
use crate::statement::Statement;
use crate::statement::StatementModel;
use crate::statement::names_of;
use crate::statement::rows_params;
use crate::statement::rows_params_prefix;
use crate::text::dec_rep;
use crate::text::usize_string;
use crate::value::Value;

verus! {

/// The text of the placeholder numbered `k`: a dollar sign and `k` in
/// decimal.
pub open spec fn placeholder_text(k: int) -> Seq<char> {
    seq!['$'] + dec_rep(k as nat)
}

/// The first `i` names, joined with `, `.
pub open spec fn name_list_text(names: Seq<Seq<char>>, i: int) -> Seq<char>
    decreases i,
{
    if i <= 0 {
        Seq::empty()
    } else if i == 1 {
        names[0]
    } else {
        name_list_text(names, i - 1) + ", "@ + names[i - 1]
    }
}

/// The placeholders `start .. start + i - 1`, joined with `, `.
pub open spec fn placeholder_list_text(start: int, i: int) -> Seq<char>
    decreases i,
{
    if i <= 0 {
        Seq::empty()
    } else if i == 1 {
        placeholder_text(start)
    } else {
        placeholder_list_text(start, i - 1) + ", "@ + placeholder_text(start + i - 1)
    }
}

/// The first `i` assignments `name = $k`, numbered from `start`, joined
/// with `sep`.
pub open spec fn assign_list_text(names: Seq<Seq<char>>, start: int, i: int, sep: Seq<char>) -> Seq<
    char,
>
    decreases i,
{
    if i <= 0 {
        Seq::empty()
    } else if i == 1 {
        names[0] + " = "@ + placeholder_text(start)
    } else {
        assign_list_text(names, start, i - 1, sep) + sep + names[i - 1] + " = "@ + placeholder_text(
            start + i - 1,
        )
    }
}

/// The first `i` qualified assignments `table.name = $k`, numbered from
/// `start`, joined with ` AND `.
pub open spec fn scope_list_text(
    table: Seq<char>,
    names: Seq<Seq<char>>,
    start: int,
    i: int,
) -> Seq<char>
    decreases i,
{
    if i <= 0 {
        Seq::empty()
    } else if i == 1 {
        table + "."@ + names[0] + " = "@ + placeholder_text(start)
    } else {
        scope_list_text(table, names, start, i - 1) + " AND "@ + table + "."@ + names[i - 1]
            + " = "@ + placeholder_text(start + i - 1)
    }
}

/// The first `i` VALUES tuples of an insert, placeholders numbered
/// row-major from 1, tuples joined with `, `.
pub open spec fn tuples_text(rows: Seq<Seq<Value>>, i: int) -> Seq<char>
    decreases i,
{
    if i <= 0 {
        Seq::empty()
    } else if i == 1 {
        "("@ + placeholder_list_text(1, rows[0].len() as int) + ")"@
    } else {
        tuples_text(rows, i - 1) + ", ("@ + placeholder_list_text(
            rows_params_prefix(rows, i - 1).len() as int + 1,
            rows[i - 1].len() as int,
        ) + ")"@
    }
}

/// The SQL text of a statement. Placeholders are numbered positionally in
/// parameter order; every statement returns the affected rows.
pub open spec fn spec_render(m: StatementModel) -> Seq<char> {
    match m {
        StatementModel::Insert { table, columns, rows } => "INSERT INTO "@ + table + " ("@
            + name_list_text(columns, columns.len() as int) + ") VALUES "@ + tuples_text(
            rows,
            rows.len() as int,
        ) + " RETURNING *"@,
        StatementModel::Update { table, set_columns, set_values, key_columns, key_values } => {
            "UPDATE "@ + table + " SET "@ + assign_list_text(
                set_columns,
                1,
                set_columns.len() as int,
                ", "@,
            ) + " WHERE "@ + assign_list_text(
                key_columns,
                set_values.len() as int + 1,
                key_columns.len() as int,
                " AND "@,
            ) + " RETURNING *"@
        },
        StatementModel::Delete { table, key_columns, key_values } => "DELETE FROM "@ + table
            + " WHERE "@ + assign_list_text(key_columns, 1, key_columns.len() as int, " AND "@)
            + " RETURNING *"@,
        StatementModel::DeleteIn { table, key_column, key_values } => "DELETE FROM "@ + table
            + " WHERE "@ + key_column + " IN ("@ + placeholder_list_text(
            1,
            key_values.len() as int,
        ) + ") RETURNING *"@,
        StatementModel::Upsert {
            table,
            insert_columns,
            insert_values,
            conflict_columns,
            update_columns,
            update_values,
            scope_columns,
            scope_values,
        } => {
            "INSERT INTO "@ + table + " ("@ + name_list_text(
                insert_columns,
                insert_columns.len() as int,
            ) + ") VALUES ("@ + placeholder_list_text(1, insert_values.len() as int)
                + ") ON CONFLICT ("@ + name_list_text(
                conflict_columns,
                conflict_columns.len() as int,
            ) + ") DO UPDATE SET "@ + assign_list_text(
                update_columns,
                insert_values.len() as int + 1,
                update_columns.len() as int,
                ", "@,
            ) + " WHERE "@ + scope_list_text(
                table,
                scope_columns,
                insert_values.len() as int + update_values.len() as int + 1,
                scope_columns.len() as int,
            ) + " RETURNING *"@
        },
    }
}

/// Appends the placeholder numbered `k`.
fn push_placeholder(out: &mut String, k: usize)
    ensures
        final (out)@ == old(out)@ + placeholder_text(k as int),
{
    out.append("$");
    let num = usize_string(k);
    out.append(num.as_str());
    proof {
        reveal_strlit("$");
        assert(old(out)@ + "$"@ + dec_rep(k as nat) =~= old(out)@ + (seq!['$'] + dec_rep(
            k as nat,
        )));
    }
}

/// Appends the names joined with `, `.
fn push_name_list(out: &mut String, names: &Vec<String>)
    ensures
        final (out)@ == old(out)@ + name_list_text(names_of(names@), names@.len() as int),
{
    let n = names.len();
    let mut i: usize = 0;
    while i < n
        invariant
            n == names@.len(),
            i <= n,
            out@ == old(out)@ + name_list_text(names_of(names@), i as int),
        decreases n - i,
    {
        if i > 0 {
            out.append(", ");
        }
        out.append(names[i].as_str());
        proof {
            assert(names_of(names@)[i as int] == names@[i as int]@);
            if i == 0 {
                assert(old(out)@ + name_list_text(names_of(names@), 0) =~= old(out)@);
                assert(out@ =~= old(out)@ + name_list_text(names_of(names@), 1));
            } else {
                assert(out@ =~= old(out)@ + name_list_text(names_of(names@), i as int + 1));
            }
        }
        i += 1;
    }
    proof {
        if n == 0 {
            assert(old(out)@ + name_list_text(names_of(names@), 0) =~= old(out)@);
        }
    }
}

/// Appends the placeholders `start .. start + count - 1`, joined with `, `.
fn push_placeholder_list(out: &mut String, start: usize, count: usize)
    requires
        start + count <= usize::MAX,
    ensures
        final (out)@ == old(out)@ + placeholder_list_text(start as int, count as int),
{
    let mut i: usize = 0;
    while i < count
        invariant
            start + count <= usize::MAX,
            i <= count,
            out@ == old(out)@ + placeholder_list_text(start as int, i as int),
        decreases count - i,
    {
        if i > 0 {
            out.append(", ");
        }
        push_placeholder(out, start + i);
        proof {
            if i == 0 {
                assert(old(out)@ + placeholder_list_text(start as int, 0) =~= old(out)@);
                assert(out@ =~= old(out)@ + placeholder_list_text(start as int, 1));
            } else {
                assert(out@ =~= old(out)@ + placeholder_list_text(start as int, i as int + 1));
            }
        }
        i += 1;
    }
    proof {
        if count == 0 {
            assert(old(out)@ + placeholder_list_text(start as int, 0) =~= old(out)@);
        }
    }
}

/// Appends the assignments `name = $k`, numbered from `start`, joined with
/// `sep`.
fn push_assign_list(out: &mut String, names: &Vec<String>, start: usize, sep: &str)
    requires
        start + names@.len() <= usize::MAX,
    ensures
        final (out)@ == old(out)@ + assign_list_text(
            names_of(names@),
            start as int,
            names@.len() as int,
            sep@,
        ),
{
    let n = names.len();
    let mut i: usize = 0;
    while i < n
        invariant
            n == names@.len(),
            start + n <= usize::MAX,
            i <= n,
            out@ == old(out)@ + assign_list_text(names_of(names@), start as int, i as int, sep@),
        decreases n - i,
    {
        if i > 0 {
            out.append(sep);
        }
        out.append(names[i].as_str());
        out.append(" = ");
        push_placeholder(out, start + i);
        proof {
            assert(names_of(names@)[i as int] == names@[i as int]@);
            if i == 0 {
                assert(old(out)@ + assign_list_text(names_of(names@), start as int, 0, sep@)
                    =~= old(out)@);
                assert(out@ =~= old(out)@ + assign_list_text(
                    names_of(names@),
                    start as int,
                    1,
                    sep@,
                ));
            } else {
                assert(out@ =~= old(out)@ + assign_list_text(
                    names_of(names@),
                    start as int,
                    i as int + 1,
                    sep@,
                ));
            }
        }
        i += 1;
    }
    proof {
        if n == 0 {
            assert(old(out)@ + assign_list_text(names_of(names@), start as int, 0, sep@) =~= old(
                out,
            )@);
        }
    }
}

/// Appends the qualified assignments `table.name = $k`, numbered from
/// `start`, joined with ` AND `.
fn push_scope_list(out: &mut String, table: &String, names: &Vec<String>, start: usize)
    requires
        start + names@.len() <= usize::MAX,
    ensures
        final (out)@ == old(out)@ + scope_list_text(
            table@,
            names_of(names@),
            start as int,
            names@.len() as int,
        ),
{
    let n = names.len();
    let mut i: usize = 0;
    while i < n
        invariant
            n == names@.len(),
            start + n <= usize::MAX,
            i <= n,
            out@ == old(out)@ + scope_list_text(table@, names_of(names@), start as int, i as int),
        decreases n - i,
    {
        if i > 0 {
            out.append(" AND ");
        }
        out.append(table.as_str());
        out.append(".");
        out.append(names[i].as_str());
        out.append(" = ");
        push_placeholder(out, start + i);
        proof {
            assert(names_of(names@)[i as int] == names@[i as int]@);
            if i == 0 {
                assert(old(out)@ + scope_list_text(table@, names_of(names@), start as int, 0)
                    =~= old(out)@);
                assert(out@ =~= old(out)@ + scope_list_text(
                    table@,
                    names_of(names@),
                    start as int,
                    1,
                ));
            } else {
                assert(out@ =~= old(out)@ + scope_list_text(
                    table@,
                    names_of(names@),
                    start as int,
                    i as int + 1,
                ));
            }
        }
        i += 1;
    }
    proof {
        if n == 0 {
            assert(old(out)@ + scope_list_text(table@, names_of(names@), start as int, 0) =~= old(
                out,
            )@);
        }
    }
}

impl Statement {
    /// Renders the statement to SQL text. Placeholders `$1 .. $N` are
    /// numbered in exactly the order [`Statement::params`] returns the
    /// values; every statement ends in `RETURNING *` so that the caller
    /// receives the affected rows.
    pub fn render(&self) -> (r: String)
        requires
            self@.wf(),
            self@.params().len() < usize::MAX,
        ensures
            r@ == spec_render(self@),
    {
        let mut out = String::new();
        match self {
            Statement::Insert { table, columns, rows } => {
                let ghost rowsm = rows@.map_values(|v: Vec<Value>| v@);
                out.append("INSERT INTO ");
                out.append(table.as_str());
                out.append(" (");
                push_name_list(&mut out, columns);
                out.append(") VALUES ");
                let nr = rows.len();
                let mut count: usize = 0;
                let mut i: usize = 0;
                proof {
                    assert(rows_params_prefix(rowsm, 0) =~= Seq::<Value>::empty());
                    assert(out@ =~= "INSERT INTO "@ + table@ + " ("@ + name_list_text(
                        names_of(columns@),
                        columns@.len() as int,
                    ) + ") VALUES "@ + tuples_text(rowsm, 0));
                }
                while i < nr
                    invariant
                        nr == rows@.len(),
                        i <= nr,
                        rowsm == rows@.map_values(|v: Vec<Value>| v@),
                        count == rows_params_prefix(rowsm, i as int).len(),
                        count <= rows_params(rowsm).len(),
                        rows_params(rowsm).len() < usize::MAX,
                        out@ == "INSERT INTO "@ + table@ + " ("@ + name_list_text(
                            names_of(columns@),
                            columns@.len() as int,
                        ) + ") VALUES "@ + tuples_text(rowsm, i as int),
                    decreases nr - i,
                {
                    proof {
                        lemma_rows_params_prefix_next(rowsm, i as int);
                        lemma_rows_params_prefix_le(rowsm, i as int + 1, rowsm.len() as int);
                    }
                    if i > 0 {
                        out.append(", (");
                    } else {
                        out.append("(");
                    }
                    push_placeholder_list(&mut out, count + 1, rows[i].len());
                    out.append(")");
                    proof {
                        assert(rowsm[i as int] == rows@[i as int]@);
                        if i == 0 {
                            assert(tuples_text(rowsm, 0) =~= Seq::<char>::empty());
                            assert(out@ =~= "INSERT INTO "@ + table@ + " ("@ + name_list_text(
                                names_of(columns@),
                                columns@.len() as int,
                            ) + ") VALUES "@ + tuples_text(rowsm, 1));
                        } else {
                            assert(out@ =~= "INSERT INTO "@ + table@ + " ("@ + name_list_text(
                                names_of(columns@),
                                columns@.len() as int,
                            ) + ") VALUES "@ + tuples_text(rowsm, i as int + 1));
                        }
                    }
                    count = count + rows[i].len();
                    i += 1;
                }
                proof {
                    if nr == 0 {
                        assert(tuples_text(rowsm, 0) =~= Seq::<char>::empty());
                    }
                }
                out.append(" RETURNING *");
                proof {
                    assert(out@ =~= spec_render(self@));
                }
            },
            Statement::Update { table, set_columns, set_values, key_columns, key_values } => {
                out.append("UPDATE ");
                out.append(table.as_str());
                out.append(" SET ");
                push_assign_list(&mut out, set_columns, 1, ", ");
                out.append(" WHERE ");
                push_assign_list(&mut out, key_columns, set_values.len() + 1, " AND ");
                out.append(" RETURNING *");
                proof {
                    assert(out@ =~= spec_render(self@));
                }
            },
            Statement::Delete { table, key_columns, key_values } => {
                out.append("DELETE FROM ");
                out.append(table.as_str());
                out.append(" WHERE ");
                push_assign_list(&mut out, key_columns, 1, " AND ");
                out.append(" RETURNING *");
                proof {
                    assert(out@ =~= spec_render(self@));
                }
            },
            Statement::DeleteIn { table, key_column, key_values } => {
                out.append("DELETE FROM ");
                out.append(table.as_str());
                out.append(" WHERE ");
                out.append(key_column.as_str());
                out.append(" IN (");
                push_placeholder_list(&mut out, 1, key_values.len());
                out.append(") RETURNING *");
                proof {
                    assert(out@ =~= spec_render(self@));
                }
            },
            Statement::Upsert {
                table,
                insert_columns,
                insert_values,
                conflict_columns,
                update_columns,
                update_values,
                scope_columns,
                scope_values,
            } => {
                out.append("INSERT INTO ");
                out.append(table.as_str());
                out.append(" (");
                push_name_list(&mut out, insert_columns);
                out.append(") VALUES (");
                push_placeholder_list(&mut out, 1, insert_values.len());
                out.append(") ON CONFLICT (");
                push_name_list(&mut out, conflict_columns);
                out.append(") DO UPDATE SET ");
                push_assign_list(&mut out, update_columns, insert_values.len() + 1, ", ");
                out.append(" WHERE ");
                push_scope_list(
                    &mut out,
                    table,
                    scope_columns,
                    insert_values.len() + update_values.len() + 1,
                );
                out.append(" RETURNING *");
                proof {
                    assert(out@ =~= spec_render(self@));
                }
            },
        }
        out
    }
}

/// One more row extends the flattened parameter prefix by that row.
proof fn lemma_rows_params_prefix_next(rows: Seq<Seq<Value>>, i: int)
    requires
        0 <= i < rows.len(),
    ensures
        rows_params_prefix(rows, i + 1).len() == rows_params_prefix(rows, i).len()
            + rows[i].len(),
{
}

/// The flattened parameter prefix never shrinks as rows are added.
proof fn lemma_rows_params_prefix_le(rows: Seq<Seq<Value>>, i: int, j: int)
    requires
        0 <= i <= j,
    ensures
        rows_params_prefix(rows, i).len() <= rows_params_prefix(rows, j).len(),
    decreases j - i,
{
    if i < j {
        lemma_rows_params_prefix_le(rows, i, j - 1);
    }
}

} // verus!
