//! The engine's general guarantees, stated and proved once over the
//! statement models that the builders produce and the renderer prints.

use vstd::prelude::*;
use crate::builder::all_nil;
use crate::builder::delete_model;
use crate::builder::insert_columns;
use crate::builder::insert_model;
use crate::builder::insert_pred;
use crate::builder::name_of;
use crate::builder::row_values;
use crate::builder::update_model;
use crate::builder::upsert_model;
use crate::changeset::RecordAction;
use crate::data_modify::StepModel;
use crate::data_modify::indirect_entry_steps;
use crate::data_modify::indirect_linker_content;
use crate::record::Record;
use crate::record::spec_get;
use crate::schema::Column;
use crate::schema::TableModel;
use crate::schema::Table;
use crate::schema::primary_pred;
use crate::schema::spec_find_table;
use crate::render::assign_list_text;
use crate::render::name_list_text;
use crate::render::placeholder_list_text;
use crate::render::placeholder_text;
use crate::render::scope_list_text;
use crate::render::spec_render;
use crate::render::tuples_text;
use crate::statement::StatementModel;
use crate::statement::rows_params_prefix;
use crate::value::Value;

verus! {

/// The consecutive placeholder indices `start .. start + count - 1`.
pub open spec fn index_range(start: int, count: int) -> Seq<int> {
    Seq::new(count as nat, |i: int| start + i)
}

/// The placeholder indices of the first `i` VALUES tuples of an insert, in
/// the order the renderer prints them.
pub open spec fn insert_indices(rows: Seq<Seq<Value>>, i: int) -> Seq<int>
    decreases i,
{
    if i <= 0 {
        Seq::empty()
    } else {
        insert_indices(rows, i - 1) + index_range(
            rows_params_prefix(rows, i - 1).len() as int + 1,
            rows[i - 1].len() as int,
        )
    }
}

/// The placeholder indices a statement's text carries, in print order: one
/// block per clause, numbered as the renderer numbers them.
pub open spec fn placeholder_indices(m: StatementModel) -> Seq<int> {
    match m {
        StatementModel::Insert { rows, .. } => insert_indices(rows, rows.len() as int),
        StatementModel::Update { set_values, key_values, .. } => index_range(
            1,
            set_values.len() as int,
        ) + index_range(set_values.len() as int + 1, key_values.len() as int),
        StatementModel::Delete { key_values, .. } => index_range(1, key_values.len() as int),
        StatementModel::DeleteIn { key_values, .. } => index_range(1, key_values.len() as int),
        StatementModel::Upsert { insert_values, update_values, scope_values, .. } => index_range(
            1,
            insert_values.len() as int,
        ) + index_range(insert_values.len() as int + 1, update_values.len() as int) + index_range(
            insert_values.len() as int + update_values.len() as int + 1,
            scope_values.len() as int,
        ),
    }
}

/// Two adjacent index ranges fuse into one.
proof fn lemma_range_fuse(a: int, b: int)
    requires
        a >= 0,
        b >= 0,
    ensures
        index_range(1, a) + index_range(a + 1, b) == index_range(1, a + b),
{
    assert(index_range(1, a) + index_range(a + 1, b) =~= index_range(1, a + b));
}

/// The insert tuple blocks cover `1 ..` densely and in order.
proof fn lemma_insert_indices_dense(rows: Seq<Seq<Value>>, i: int)
    requires
        0 <= i <= rows.len(),
    ensures
        insert_indices(rows, i) == index_range(1, rows_params_prefix(rows, i).len() as int),
    decreases i,
{
    if i > 0 {
        lemma_insert_indices_dense(rows, i - 1);
        assert(insert_indices(rows, i) =~= index_range(
            1,
            rows_params_prefix(rows, i).len() as int,
        ));
    } else {
        assert(insert_indices(rows, 0) =~= index_range(1, 0));
    }
}

/// Every statement's text carries the placeholder indices `1 .. N` exactly
/// once each, in increasing order, where `N` is the length of its parameter
/// list: placeholders and parameters line up one to one.
pub proof fn lemma_placeholders_one_to_one(m: StatementModel)
    ensures
        placeholder_indices(m) == index_range(1, m.params().len() as int),
        forall|i: int, j: int|
            0 <= i < j < placeholder_indices(m).len() ==> placeholder_indices(m)[i]
                < placeholder_indices(m)[j],
{
    match m {
        StatementModel::Insert { rows, .. } => {
            lemma_insert_indices_dense(rows, rows.len() as int);
        },
        StatementModel::Update { set_values, key_values, .. } => {
            lemma_range_fuse(set_values.len() as int, key_values.len() as int);
        },
        StatementModel::Delete { .. } => {},
        StatementModel::DeleteIn { .. } => {},
        StatementModel::Upsert { insert_values, update_values, scope_values, .. } => {
            lemma_range_fuse(insert_values.len() as int, update_values.len() as int);
            assert(index_range(1, insert_values.len() as int + update_values.len() as int)
                + index_range(
                insert_values.len() as int + update_values.len() as int + 1,
                scope_values.len() as int,
            ) =~= index_range(
                1,
                insert_values.len() as int + update_values.len() as int
                    + scope_values.len() as int,
            ));
        },
    }
}

/// The flattened insert parameters of `i` rows of `c` values each number
/// `i * c`.
proof fn lemma_rows_params_len(rows: Seq<Seq<Value>>, c: int, i: int)
    requires
        0 <= i <= rows.len(),
        forall|r: int| 0 <= r < rows.len() ==> (#[trigger] rows[r]).len() == c,
    ensures
        rows_params_prefix(rows, i).len() == i * c,
    decreases i,
{
    if i > 0 {
        lemma_rows_params_len(rows, c, i - 1);
        assert(rows[i - 1].len() == c);
        assert(rows_params_prefix(rows, i).len() == rows_params_prefix(rows, i - 1).len() + c);
        assert(i * c == (i - 1) * c + c) by (nonlinear_arith);
    } else {
        assert(0 * c == 0) by (nonlinear_arith);
    }
}

/// For every insert: the column list and each row's parameter tuple have
/// equal length, and the parameter list holds exactly one value per listed
/// column and row.
pub proof fn lemma_insert_aligned(t: TableModel, rows: Seq<Seq<(Seq<char>, Value)>>)
    ensures
        insert_model(t, rows).wf(),
        ({
            let m = insert_model(t, rows);
            m.params().len() == rows.len() * insert_columns(t, rows).len()
        }),
{
    let m = insert_model(t, rows);
    let c = insert_columns(t, rows).len() as int;
    match m {
        StatementModel::Insert { rows: vrows, .. } => {
            assert(forall|r: int| 0 <= r < vrows.len() ==> (#[trigger] vrows[r]).len() == c);
            lemma_rows_params_len(vrows, c, vrows.len() as int);
            assert(vrows.len() * c == rows.len() * c);
        },
        _ => {},
    }
}

/// Whether a name stands in a list of column names.
pub open spec fn names_contain(names: Seq<Seq<char>>, name: Seq<char>) -> bool {
    exists|i: int| 0 <= i < names.len() && names[i] == name
}

/// For every insert batch and every non-primary column of the table: the
/// column is omitted from the statement exactly when it is not-null, has a
/// generated default, and its value is absent or null across the whole
/// batch — and included in every other case.
pub proof fn lemma_insert_column_selection(
    t: TableModel,
    rows: Seq<Seq<(Seq<char>, Value)>>,
    i: int,
)
    requires
        t.wf(),
        0 <= i < t.columns.len(),
        !t.columns[i].is_primary,
    ensures
        ({
            let c = t.columns[i];
            let names = insert_columns(t, rows).map_values(name_of());
            names_contain(names, c.name@) <==> !(c.is_not_null && c.has_generated_default
                && all_nil(rows, c.name@))
        }),
{
    let c = t.columns[i];
    let pred = insert_pred(rows);
    let ics = insert_columns(t, rows);
    let names = ics.map_values(name_of());
    if !(c.is_not_null && c.has_generated_default && all_nil(rows, c.name@)) {
        assert(pred(c));
        t.columns.lemma_filter_contains(pred, i);
        let j = choose|j: int| 0 <= j < ics.len() && ics[j] == c;
        assert(names[j] == c.name@);
        assert(names_contain(names, c.name@));
    }
    if names_contain(names, c.name@) {
        let j = choose|j: int| 0 <= j < names.len() && names[j] == c.name@;
        assert(ics[j].name@ == c.name@);
        t.columns.lemma_filter_pred(pred, j);
        t.columns.lemma_filter_contains_rev(pred, ics[j]);
        let k = choose|k: int| 0 <= k < t.columns.len() && t.columns[k] == ics[j];
        assert(t.columns[k].name@ == t.columns[i].name@);
        assert(k == i);
        assert(pred(c));
    }
}

/// Columns drawn from a table with distinct column names keep distinct
/// names.
proof fn lemma_filter_distinct_names(s: Seq<Column>, pred: spec_fn(Column) -> bool)
    requires
        forall|i: int, j: int| 0 <= i < j < s.len() ==> s[i].name@ != s[j].name@,
    ensures
        forall|i: int, j: int|
            0 <= i < j < s.filter(pred).len() ==> s.filter(pred)[i].name@ != s.filter(
                pred,
            )[j].name@,
    decreases s.len(),
{
    reveal(Seq::filter);
    if s.len() > 0 {
        let butlast = s.drop_last();
        lemma_filter_distinct_names(butlast, pred);
        let f = s.filter(pred);
        let fb = butlast.filter(pred);
        assert forall|i: int, j: int| 0 <= i < j < f.len() implies f[i].name@ != f[j].name@ by {
            if pred(s.last()) && j == f.len() - 1 {
                assert(f[j] == s.last());
                assert(f[i] == fb[i]);
                butlast.lemma_filter_pred(pred, i);
                butlast.lemma_filter_contains_rev(pred, fb[i]);
                let k = choose|k: int| 0 <= k < butlast.len() && butlast[k] == fb[i];
                assert(s[k] == fb[i]);
                assert(s[k].name@ != s[s.len() - 1].name@);
            } else {
                assert(f[i] == fb[i] && f[j] == fb[j]);
            }
        }
    }
}

/// For every update: the primary-key values are bound strictly after the
/// non-primary values, and the WHERE clause references exactly the table's
/// primary-key columns, each exactly once.
pub proof fn lemma_update_shape(t: TableModel, rec: Seq<(Seq<char>, Value)>)
    requires
        t.wf(),
    ensures
        ({
            let m = update_model(t, rec);
            match m {
                StatementModel::Update { set_columns, set_values, key_columns, key_values, .. } => {
                    &&& m.params() == set_values + key_values
                    &&& set_values == row_values(rec, t.non_primary_columns())
                    &&& key_values == row_values(rec, t.primary_columns())
                    &&& key_columns == t.primary_columns().map_values(name_of())
                    &&& forall|i: int, j: int|
                        0 <= i < j < key_columns.len() ==> key_columns[i] != key_columns[j]
                },
                _ => false,
            }
        }),
{
    lemma_filter_distinct_names(t.columns, primary_pred());
    let m = update_model(t, rec);
    match m {
        StatementModel::Update { key_columns, .. } => {
            assert forall|i: int, j: int| 0 <= i < j < key_columns.len() implies key_columns[i]
                != key_columns[j] by {
                assert(key_columns[i] == t.primary_columns()[i].name@);
                assert(key_columns[j] == t.primary_columns()[j].name@);
            }
        },
        _ => {},
    }
}

/// For every one-one upsert: the conflict target is the child table's own
/// primary key, and the scoping WHERE clause references the child's
/// foreign-key column bound to the parent's propagated value — the value of
/// the referenced column in the parent record, not anything of the child's.
pub proof fn lemma_upsert_shape(
    main: TableModel,
    mrec: Seq<(Seq<char>, Value)>,
    t: TableModel,
    orec: Seq<(Seq<char>, Value)>,
)
    requires
        t.fk_pairs_to(main.name).len() == 1,
    ensures
        ({
            let fk = t.fk_pairs_to(main.name)[0];
            let mv = spec_get(mrec, fk.referred_column@)->0;
            let m = upsert_model(t, orec, fk, mv);
            match m {
                StatementModel::Upsert {
                    insert_values,
                    conflict_columns,
                    update_values,
                    scope_columns,
                    scope_values,
                    ..
                } => {
                    &&& conflict_columns == t.primary_columns().map_values(name_of())
                    &&& scope_columns == seq![fk.local_column@]
                    &&& scope_values == seq![spec_get(mrec, fk.referred_column@)->0]
                    &&& m.params() == insert_values + update_values + scope_values
                },
                _ => false,
            }
        }),
{
}


/// The number of occurrences of `c` in `s`.
pub open spec fn count_char(s: Seq<char>, c: char) -> int
    decreases s.len(),
{
    if s.len() == 0 {
        0
    } else {
        count_char(s.drop_last(), c) + if s.last() == c {
            1int
        } else {
            0int
        }
    }
}

/// Whether `s` never holds a dollar sign, the placeholder mark.
pub open spec fn dollar_free(s: Seq<char>) -> bool {
    forall|i: int| 0 <= i < s.len() ==> s[i] != '$'
}

/// Whether every name in the list is free of the placeholder mark.
pub open spec fn all_dollar_free(names: Seq<Seq<char>>) -> bool {
    forall|i: int| 0 <= i < names.len() ==> dollar_free(#[trigger] names[i])
}

/// Whether every identifier a statement prints — table and column names —
/// is free of the placeholder mark.
pub open spec fn identifiers_dollar_free(m: StatementModel) -> bool {
    match m {
        StatementModel::Insert { table, columns, .. } => dollar_free(table) && all_dollar_free(
            columns,
        ),
        StatementModel::Update { table, set_columns, key_columns, .. } => dollar_free(table)
            && all_dollar_free(set_columns) && all_dollar_free(key_columns),
        StatementModel::Delete { table, key_columns, .. } => dollar_free(table) && all_dollar_free(
            key_columns,
        ),
        StatementModel::DeleteIn { table, key_column, .. } => dollar_free(table) && dollar_free(
            key_column,
        ),
        StatementModel::Upsert {
            table,
            insert_columns,
            conflict_columns,
            update_columns,
            scope_columns,
            ..
        } => dollar_free(table) && all_dollar_free(insert_columns) && all_dollar_free(
            conflict_columns,
        ) && all_dollar_free(update_columns) && all_dollar_free(scope_columns),
    }
}

/// A text without the character holds zero occurrences of it.
proof fn lemma_count_zero(s: Seq<char>, c: char)
    requires
        forall|i: int| 0 <= i < s.len() ==> s[i] != c,
    ensures
        count_char(s, c) == 0,
    decreases s.len(),
{
    if s.len() > 0 {
        lemma_count_zero(s.drop_last(), c);
    }
}

/// Occurrences add up over concatenation.
proof fn lemma_count_concat(a: Seq<char>, b: Seq<char>, c: char)
    ensures
        count_char(a + b, c) == count_char(a, c) + count_char(b, c),
    decreases b.len(),
{
    if b.len() == 0 {
        assert(a + b =~= a);
    } else {
        assert((a + b).drop_last() =~= a + b.drop_last());
        lemma_count_concat(a, b.drop_last(), c);
    }
}

/// Decimal digits never print the placeholder mark.
proof fn lemma_dec_rep_free(n: nat)
    ensures
        count_char(crate::text::dec_rep(n), '$') == 0,
    decreases n,
{
    if n < 10 {
        assert(count_char(Seq::<char>::empty(), '$') == 0);
        assert(crate::text::dec_rep(n).drop_last() =~= Seq::<char>::empty());
        assert(crate::text::dec_rep(n).last() == crate::text::dec_digit(n));
        assert(crate::text::dec_digit(n) != '$');
    } else {
        lemma_dec_rep_free(n / 10);
        assert(crate::text::dec_rep(n).drop_last() =~= crate::text::dec_rep(n / 10));
    }
}

/// One placeholder prints exactly one mark.
proof fn lemma_placeholder_count(k: int)
    requires
        k >= 0,
    ensures
        count_char(placeholder_text(k), '$') == 1,
{
    lemma_dec_rep_free(k as nat);
    lemma_count_concat(seq!['$'], crate::text::dec_rep(k as nat), '$');
    assert(count_char(Seq::<char>::empty(), '$') == 0);
    assert(seq!['$'].drop_last() =~= Seq::<char>::empty());
    assert(seq!['$'].last() == '$');
    assert(count_char(seq!['$'], '$') == 1);
}

/// The separators and keywords of the dialect hold no placeholder mark.
proof fn lemma_literals_free()
    ensures
        count_char("INSERT INTO "@, '$') == 0,
        count_char(" ("@, '$') == 0,
        count_char(") VALUES "@, '$') == 0,
        count_char(" RETURNING *"@, '$') == 0,
        count_char("UPDATE "@, '$') == 0,
        count_char(" SET "@, '$') == 0,
        count_char(" WHERE "@, '$') == 0,
        count_char("DELETE FROM "@, '$') == 0,
        count_char(" IN ("@, '$') == 0,
        count_char(") RETURNING *"@, '$') == 0,
        count_char(") VALUES ("@, '$') == 0,
        count_char(") ON CONFLICT ("@, '$') == 0,
        count_char(") DO UPDATE SET "@, '$') == 0,
        count_char(", "@, '$') == 0,
        count_char(" AND "@, '$') == 0,
        count_char(" = "@, '$') == 0,
        count_char("."@, '$') == 0,
        count_char("("@, '$') == 0,
        count_char(")"@, '$') == 0,
        count_char(", ("@, '$') == 0,
{
    reveal_strlit("INSERT INTO ");
    reveal_strlit(" (");
    reveal_strlit(") VALUES ");
    reveal_strlit(" RETURNING *");
    reveal_strlit("UPDATE ");
    reveal_strlit(" SET ");
    reveal_strlit(" WHERE ");
    reveal_strlit("DELETE FROM ");
    reveal_strlit(" IN (");
    reveal_strlit(") RETURNING *");
    reveal_strlit(") VALUES (");
    reveal_strlit(") ON CONFLICT (");
    reveal_strlit(") DO UPDATE SET ");
    reveal_strlit(", ");
    reveal_strlit(" AND ");
    reveal_strlit(" = ");
    reveal_strlit(".");
    reveal_strlit("(");
    reveal_strlit(")");
    reveal_strlit(", (");
    lemma_count_zero("INSERT INTO "@, '$');
    lemma_count_zero(" ("@, '$');
    lemma_count_zero(") VALUES "@, '$');
    lemma_count_zero(" RETURNING *"@, '$');
    lemma_count_zero("UPDATE "@, '$');
    lemma_count_zero(" SET "@, '$');
    lemma_count_zero(" WHERE "@, '$');
    lemma_count_zero("DELETE FROM "@, '$');
    lemma_count_zero(" IN ("@, '$');
    lemma_count_zero(") RETURNING *"@, '$');
    lemma_count_zero(") VALUES ("@, '$');
    lemma_count_zero(") ON CONFLICT ("@, '$');
    lemma_count_zero(") DO UPDATE SET "@, '$');
    lemma_count_zero(", "@, '$');
    lemma_count_zero(" AND "@, '$');
    lemma_count_zero(" = "@, '$');
    lemma_count_zero("."@, '$');
    lemma_count_zero("("@, '$');
    lemma_count_zero(")"@, '$');
    lemma_count_zero(", ("@, '$');
}

/// A `, `-joined name list prints no placeholder mark.
proof fn lemma_name_list_count(names: Seq<Seq<char>>, i: int)
    requires
        all_dollar_free(names),
        i <= names.len(),
    ensures
        count_char(name_list_text(names, i), '$') == 0,
    decreases i,
{
    lemma_literals_free();
    if i == 1 {
        lemma_count_zero(names[0], '$');
    } else if i > 1 {
        lemma_name_list_count(names, i - 1);
        lemma_count_zero(names[i - 1], '$');
        lemma_count_concat(name_list_text(names, i - 1), ", "@, '$');
        lemma_count_concat(name_list_text(names, i - 1) + ", "@, names[i - 1], '$');
    }
}

/// A placeholder list prints one mark per placeholder.
proof fn lemma_placeholder_list_count(start: int, i: int)
    requires
        start >= 1,
        i >= 0,
    ensures
        count_char(placeholder_list_text(start, i), '$') == i,
    decreases i,
{
    lemma_literals_free();
    if i == 1 {
        lemma_placeholder_count(start);
    } else if i > 1 {
        lemma_placeholder_list_count(start, i - 1);
        lemma_placeholder_count(start + i - 1);
        lemma_count_concat(placeholder_list_text(start, i - 1), ", "@, '$');
        lemma_count_concat(
            placeholder_list_text(start, i - 1) + ", "@,
            placeholder_text(start + i - 1),
            '$',
        );
    }
}

/// An assignment list prints one mark per assignment.
proof fn lemma_assign_list_count(names: Seq<Seq<char>>, start: int, i: int, sep: Seq<char>)
    requires
        all_dollar_free(names),
        count_char(sep, '$') == 0,
        start >= 1,
        i <= names.len(),
    ensures
        count_char(assign_list_text(names, start, i, sep), '$') == if i >= 0 {
            i
        } else {
            0int
        },
    decreases i,
{
    lemma_literals_free();
    if i == 1 {
        lemma_count_zero(names[0], '$');
        lemma_count_concat(names[0], " = "@, '$');
        lemma_count_concat(names[0] + " = "@, placeholder_text(start), '$');
        lemma_placeholder_count(start);
    } else if i > 1 {
        lemma_assign_list_count(names, start, i - 1, sep);
        lemma_count_zero(names[i - 1], '$');
        lemma_placeholder_count(start + i - 1);
        let pre = assign_list_text(names, start, i - 1, sep);
        lemma_count_concat(pre, sep, '$');
        lemma_count_concat(pre + sep, names[i - 1], '$');
        lemma_count_concat(pre + sep + names[i - 1], " = "@, '$');
        lemma_count_concat(
            pre + sep + names[i - 1] + " = "@,
            placeholder_text(start + i - 1),
            '$',
        );
    }
}

/// A qualified scope list prints one mark per assignment.
proof fn lemma_scope_list_count(table: Seq<char>, names: Seq<Seq<char>>, start: int, i: int)
    requires
        dollar_free(table),
        all_dollar_free(names),
        start >= 1,
        i <= names.len(),
    ensures
        count_char(scope_list_text(table, names, start, i), '$') == if i >= 0 {
            i
        } else {
            0int
        },
    decreases i,
{
    lemma_literals_free();
    lemma_count_zero(table, '$');
    if i == 1 {
        lemma_count_zero(names[0], '$');
        lemma_count_concat(table, "."@, '$');
        lemma_count_concat(table + "."@, names[0], '$');
        lemma_count_concat(table + "."@ + names[0], " = "@, '$');
        lemma_count_concat(table + "."@ + names[0] + " = "@, placeholder_text(start), '$');
        lemma_placeholder_count(start);
    } else if i > 1 {
        lemma_scope_list_count(table, names, start, i - 1);
        lemma_count_zero(names[i - 1], '$');
        lemma_placeholder_count(start + i - 1);
        let pre = scope_list_text(table, names, start, i - 1);
        lemma_count_concat(pre, " AND "@, '$');
        lemma_count_concat(pre + " AND "@, table, '$');
        lemma_count_concat(pre + " AND "@ + table, "."@, '$');
        lemma_count_concat(pre + " AND "@ + table + "."@, names[i - 1], '$');
        lemma_count_concat(pre + " AND "@ + table + "."@ + names[i - 1], " = "@, '$');
        lemma_count_concat(
            pre + " AND "@ + table + "."@ + names[i - 1] + " = "@,
            placeholder_text(start + i - 1),
            '$',
        );
    }
}

/// The VALUES tuples print one mark per flattened parameter.
proof fn lemma_tuples_count(rows: Seq<Seq<Value>>, i: int)
    requires
        i <= rows.len(),
    ensures
        count_char(tuples_text(rows, i), '$') == if i >= 0 {
            rows_params_prefix(rows, i).len() as int
        } else {
            0int
        },
    decreases i,
{
    lemma_literals_free();
    if i <= 0 {
        assert(count_char(Seq::<char>::empty(), '$') == 0);
    }
    if i == 1 {
        assert(rows_params_prefix(rows, 0) =~= Seq::<Value>::empty());
        lemma_count_concat("("@, placeholder_list_text(1, rows[0].len() as int), '$');
        lemma_count_concat(
            "("@ + placeholder_list_text(1, rows[0].len() as int),
            ")"@,
            '$',
        );
        lemma_placeholder_list_count(1, rows[0].len() as int);
    } else if i > 1 {
        lemma_tuples_count(rows, i - 1);
        let start = rows_params_prefix(rows, i - 1).len() as int + 1;
        let phs = placeholder_list_text(start, rows[i - 1].len() as int);
        lemma_placeholder_list_count(start, rows[i - 1].len() as int);
        let pre = tuples_text(rows, i - 1);
        lemma_count_concat(pre, ", ("@, '$');
        lemma_count_concat(pre + ", ("@, phs, '$');
        lemma_count_concat(pre + ", ("@ + phs, ")"@, '$');
    }
}

/// The rendered SQL text of a well-formed statement with `$`-free
/// identifiers holds exactly one placeholder mark per parameter: together
/// with [`lemma_placeholders_one_to_one`], the text mentions the indices
/// `1 .. N` once each and nothing else that could read as a placeholder.
pub proof fn lemma_render_marks_match_params(m: StatementModel)
    requires
        m.wf(),
        identifiers_dollar_free(m),
    ensures
        count_char(spec_render(m), '$') == m.params().len(),
{
    lemma_literals_free();
    match m {
        StatementModel::Insert { table, columns, rows } => {
            lemma_count_zero(table, '$');
            lemma_name_list_count(columns, columns.len() as int);
            lemma_tuples_count(rows, rows.len() as int);
            let a = "INSERT INTO "@;
            let b = a + table;
            let c = b + " ("@;
            let d = c + name_list_text(columns, columns.len() as int);
            let e = d + ") VALUES "@;
            let f = e + tuples_text(rows, rows.len() as int);
            lemma_count_concat(a, table, '$');
            lemma_count_concat(b, " ("@, '$');
            lemma_count_concat(c, name_list_text(columns, columns.len() as int), '$');
            lemma_count_concat(d, ") VALUES "@, '$');
            lemma_count_concat(e, tuples_text(rows, rows.len() as int), '$');
            lemma_count_concat(f, " RETURNING *"@, '$');
        },
        StatementModel::Update { table, set_columns, set_values, key_columns, key_values } => {
            lemma_count_zero(table, '$');
            lemma_assign_list_count(set_columns, 1, set_columns.len() as int, ", "@);
            lemma_assign_list_count(
                key_columns,
                set_values.len() as int + 1,
                key_columns.len() as int,
                " AND "@,
            );
            let sets = assign_list_text(set_columns, 1, set_columns.len() as int, ", "@);
            let keys = assign_list_text(
                key_columns,
                set_values.len() as int + 1,
                key_columns.len() as int,
                " AND "@,
            );
            let a = "UPDATE "@;
            let b = a + table;
            let c = b + " SET "@;
            let d = c + sets;
            let e = d + " WHERE "@;
            let f = e + keys;
            lemma_count_concat(a, table, '$');
            lemma_count_concat(b, " SET "@, '$');
            lemma_count_concat(c, sets, '$');
            lemma_count_concat(d, " WHERE "@, '$');
            lemma_count_concat(e, keys, '$');
            lemma_count_concat(f, " RETURNING *"@, '$');
        },
        StatementModel::Delete { table, key_columns, key_values } => {
            lemma_count_zero(table, '$');
            lemma_assign_list_count(key_columns, 1, key_columns.len() as int, " AND "@);
            let keys = assign_list_text(key_columns, 1, key_columns.len() as int, " AND "@);
            let a = "DELETE FROM "@;
            let b = a + table;
            let c = b + " WHERE "@;
            let d = c + keys;
            lemma_count_concat(a, table, '$');
            lemma_count_concat(b, " WHERE "@, '$');
            lemma_count_concat(c, keys, '$');
            lemma_count_concat(d, " RETURNING *"@, '$');
        },
        StatementModel::DeleteIn { table, key_column, key_values } => {
            lemma_count_zero(table, '$');
            lemma_count_zero(key_column, '$');
            lemma_placeholder_list_count(1, key_values.len() as int);
            let phs = placeholder_list_text(1, key_values.len() as int);
            let a = "DELETE FROM "@;
            let b = a + table;
            let c = b + " WHERE "@;
            let d = c + key_column;
            let e = d + " IN ("@;
            let f = e + phs;
            lemma_count_concat(a, table, '$');
            lemma_count_concat(b, " WHERE "@, '$');
            lemma_count_concat(c, key_column, '$');
            lemma_count_concat(d, " IN ("@, '$');
            lemma_count_concat(e, phs, '$');
            lemma_count_concat(f, ") RETURNING *"@, '$');
        },
        StatementModel::Upsert {
            table,
            insert_columns,
            insert_values,
            conflict_columns,
            update_columns,
            update_values,
            scope_columns,
            scope_values,
        } => {
            lemma_count_zero(table, '$');
            lemma_name_list_count(insert_columns, insert_columns.len() as int);
            lemma_name_list_count(conflict_columns, conflict_columns.len() as int);
            lemma_placeholder_list_count(1, insert_values.len() as int);
            lemma_assign_list_count(
                update_columns,
                insert_values.len() as int + 1,
                update_columns.len() as int,
                ", "@,
            );
            lemma_scope_list_count(
                table,
                scope_columns,
                insert_values.len() as int + update_values.len() as int + 1,
                scope_columns.len() as int,
            );
            let icols = name_list_text(insert_columns, insert_columns.len() as int);
            let iphs = placeholder_list_text(1, insert_values.len() as int);
            let ccols = name_list_text(conflict_columns, conflict_columns.len() as int);
            let sets = assign_list_text(
                update_columns,
                insert_values.len() as int + 1,
                update_columns.len() as int,
                ", "@,
            );
            let scope = scope_list_text(
                table,
                scope_columns,
                insert_values.len() as int + update_values.len() as int + 1,
                scope_columns.len() as int,
            );
            let a = "INSERT INTO "@;
            let b = a + table;
            let c = b + " ("@;
            let d = c + icols;
            let e = d + ") VALUES ("@;
            let f = e + iphs;
            let g = f + ") ON CONFLICT ("@;
            let h = g + ccols;
            let i = h + ") DO UPDATE SET "@;
            let j = i + sets;
            let k = j + " WHERE "@;
            let l = k + scope;
            lemma_count_concat(a, table, '$');
            lemma_count_concat(b, " ("@, '$');
            lemma_count_concat(c, icols, '$');
            lemma_count_concat(d, ") VALUES ("@, '$');
            lemma_count_concat(e, iphs, '$');
            lemma_count_concat(f, ") ON CONFLICT ("@, '$');
            lemma_count_concat(g, ccols, '$');
            lemma_count_concat(h, ") DO UPDATE SET "@, '$');
            lemma_count_concat(i, sets, '$');
            lemma_count_concat(j, " WHERE "@, '$');
            lemma_count_concat(k, scope, '$');
            lemma_count_concat(l, " RETURNING *"@, '$');
        },
    }
}


/// For an indirect `Unlink` entry, the plan holds exactly one statement per
/// row, and each is a delete against the linker table — keyed on the linker
/// table's own primary columns over the linker record that carries the main
/// record's and the row's referenced values. Every planned statement
/// addresses the linker table, so the indirect table itself is never
/// touched.
pub proof fn lemma_unlink_touches_only_the_linker(
    tables: Seq<Table>,
    mt: TableModel,
    mrec: Seq<(Seq<char>, Value)>,
    ind_name: Seq<char>,
    via_name: Seq<char>,
    rows: Seq<Record>,
)
    requires
        spec_find_table(tables, ind_name) is Some,
        spec_find_table(tables, via_name) is Some,
    ensures
        ({
            let steps = indirect_entry_steps(
                tables,
                mt,
                mrec,
                ind_name,
                via_name,
                RecordAction::Unlink,
                rows,
            );
            let it = spec_find_table(tables, ind_name)->0;
            let lt = spec_find_table(tables, via_name)->0;
            &&& steps.len() == rows.len()
            &&& forall|k: int|
                0 <= k < steps.len() ==> #[trigger] steps[k] == StepModel::Exec(
                    delete_model(lt@, indirect_linker_content(lt@, mt, it@, mrec, rows[k]@)),
                )
            &&& forall|k: int|
                0 <= k < steps.len() ==> ((#[trigger] steps[k]) matches StepModel::Exec(m)
                    && m.kind() is Delete && m.table() == lt@.name)
            &&& it@.name != lt@.name ==> forall|k: int|
                0 <= k < steps.len() ==> ((#[trigger] steps[k]) matches StepModel::Exec(m)
                    && m.table() != it@.name)
        }),
{
}

} // verus!
