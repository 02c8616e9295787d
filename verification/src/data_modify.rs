//! The changeset orchestrator: turns a changeset into the ordered statements
//! that persist it, main record first, then one-one upserts, has-many
//! operations, and indirect (many-to-many) operations.
//!
//! Execution is the caller's: [`ChangesetSaver`] hands out one statement at
//! a time and consumes the database's response to it, because later
//! statements depend on rows returned by earlier ones (freshly generated
//! primary keys).

use vstd::prelude::*;
use crate::builder::covers_all;
use crate::builder::covers_primary;
use crate::builder::delete_model;
use crate::builder::delete_statement;
use crate::builder::insert_model;
use crate::builder::insert_ok;
use crate::builder::insert_statement;
use crate::builder::linker_insert_model;
use crate::builder::linker_insert_statement;
use crate::builder::linker_ok;
use crate::builder::update_model;
use crate::builder::update_statement;
use crate::builder::upsert_model;
use crate::builder::upsert_ok;
use crate::builder::upsert_statement;
use crate::changeset::RecordAction;
use crate::changeset::RecordChangeset;
use crate::changeset::SaveContainer;
use crate::changeset::Window;
use crate::changeset::has_tab;
use crate::changeset::spec_has_tab;
use crate::error::DbError;
use crate::error::IntelError;
use crate::record::Record;
use crate::record::spec_get;
use crate::record::views_of;
use crate::resolver::create_linker_ok;
use crate::resolver::create_linker_record;
use crate::resolver::linker_content;
use crate::schema::Table;
use crate::schema::TableModel;
use crate::schema::get_table;
use crate::schema::primary_pred;
use crate::schema::spec_find_table;
use crate::statement::Statement;
use crate::statement::StatementKind;
use crate::statement::StatementModel;
use crate::value::Value;

verus! {

/// One step of a changeset plan.
pub enum PlanStep {
    /// Execute the statement; only failure matters in the response.
    Exec(Statement),
    /// Execute the statement (an insert into the indirect table), then build
    /// and execute the linker-table insert from the row it returns.
    InsertThenLink { statement: Statement, indirect_table: Table, linker_table: Table },
}

/// The mathematical content of a plan step.
pub enum StepModel {
    Exec(StatementModel),
    InsertThenLink { statement: StatementModel, indirect_table: TableModel, linker_table: TableModel },
}

impl View for PlanStep {
    type V = StepModel;

    open spec fn view(&self) -> StepModel {
        match self {
            PlanStep::Exec(s) => StepModel::Exec(s@),
            PlanStep::InsertThenLink { statement, indirect_table, linker_table } => {
                StepModel::InsertThenLink {
                    statement: statement@,
                    indirect_table: indirect_table@,
                    linker_table: linker_table@,
                }
            },
        }
    }
}

/// The contents of a sequence of plan steps.
pub open spec fn steps_view(s: Seq<PlanStep>) -> Seq<StepModel> {
    s.map_values(|p: PlanStep| p@)
}

/// The contents of a sequence of statements.
pub open spec fn stmts_view(s: Seq<Statement>) -> Seq<StatementModel> {
    s.map_values(|st: Statement| st@)
}

/// Whether the main-record statement can be built: `CreateNew` inserts the
/// record, `Edited` updates it, any other action is unsupported.
pub open spec fn main_stmt_ok(t: TableModel, cs: RecordChangeset) -> bool {
    match cs.action {
        RecordAction::CreateNew => insert_ok(t, seq![cs.record@]),
        RecordAction::Edited => covers_all(t, cs.record@),
        _ => false,
    }
}

/// The main-record statement.
pub open spec fn main_stmt_model(t: TableModel, cs: RecordChangeset) -> StatementModel {
    if cs.action is CreateNew {
        insert_model(t, seq![cs.record@])
    } else {
        update_model(t, cs.record@)
    }
}

/// The steps one one-one entry contributes: one upsert against the child
/// table, or nothing when the record is absent or the table unknown.
pub open spec fn one_one_entry_steps(
    tables: Seq<Table>,
    mt: TableModel,
    mrec: Seq<(Seq<char>, Value)>,
    name: Seq<char>,
    orec: Option<Record>,
) -> Seq<StepModel> {
    match orec {
        None => Seq::empty(),
        Some(rec) => match spec_find_table(tables, name) {
            None => Seq::empty(),
            Some(t) => seq![
                StepModel::Exec(
                    upsert_model(
                        t@,
                        rec@,
                        t@.fk_pairs_to(mt.name)[0],
                        spec_get(mrec, t@.fk_pairs_to(mt.name)[0].referred_column@)->0,
                    ),
                ),
            ],
        },
    }
}

/// Whether one one-one entry can be planned.
pub open spec fn one_one_entry_ok(
    tables: Seq<Table>,
    mt: TableModel,
    mrec: Seq<(Seq<char>, Value)>,
    name: Seq<char>,
    orec: Option<Record>,
) -> bool {
    match orec {
        None => true,
        Some(rec) => match spec_find_table(tables, name) {
            None => true,
            Some(t) => upsert_ok(mt, mrec, t@, rec@),
        },
    }
}

/// The steps of the first `i` one-one entries.
pub open spec fn one_one_steps_prefix(
    tables: Seq<Table>,
    mt: TableModel,
    mrec: Seq<(Seq<char>, Value)>,
    entries: Seq<(String, Option<Record>)>,
    i: int,
) -> Seq<StepModel>
    decreases i,
{
    if i <= 0 {
        Seq::empty()
    } else {
        one_one_steps_prefix(tables, mt, mrec, entries, i - 1) + one_one_entry_steps(
            tables,
            mt,
            mrec,
            entries[i - 1].0@,
            entries[i - 1].1,
        )
    }
}

/// Whether every one-one entry can be planned.
pub open spec fn one_ones_ok(
    tables: Seq<Table>,
    mt: TableModel,
    mrec: Seq<(Seq<char>, Value)>,
    entries: Seq<(String, Option<Record>)>,
) -> bool {
    forall|k: int|
        0 <= k < entries.len() ==> one_one_entry_ok(
            tables,
            mt,
            mrec,
            (#[trigger] entries[k]).0@,
            entries[k].1,
        )
}

/// The first `j` delete steps of an `Unlink` batch against `t`.
pub open spec fn delete_steps(t: Table, rows: Seq<Record>, j: int) -> Seq<StepModel> {
    Seq::new(j as nat, |q: int| StepModel::Exec(delete_model(t@, rows[q]@)))
}

/// The first `j` update steps of an `Edited` batch against `t`.
pub open spec fn update_steps(t: Table, rows: Seq<Record>, j: int) -> Seq<StepModel> {
    Seq::new(j as nat, |q: int| StepModel::Exec(update_model(t@, rows[q]@)))
}

/// The steps one has-many entry contributes: deletes for `Unlink`, one
/// batch insert for `LinkNew` (none when the batch is empty), updates for
/// `Edited`.
pub open spec fn has_many_entry_steps(
    tables: Seq<Table>,
    name: Seq<char>,
    action: RecordAction,
    rows: Seq<Record>,
) -> Seq<StepModel> {
    let t = spec_find_table(tables, name)->0;
    match action {
        RecordAction::Unlink => delete_steps(t, rows, rows.len() as int),
        RecordAction::LinkNew => if rows.len() > 0 {
            seq![StepModel::Exec(insert_model(t@, views_of(rows)))]
        } else {
            Seq::empty()
        },
        RecordAction::Edited => update_steps(t, rows, rows.len() as int),
        _ => Seq::empty(),
    }
}

/// Whether one has-many entry can be planned: the table must belong to the
/// window's has-many tabs and be loaded, the action must be `Unlink`,
/// `LinkNew` or `Edited`, and every row must bind what its statement needs.
pub open spec fn has_many_entry_ok(
    tables: Seq<Table>,
    window: Window,
    name: Seq<char>,
    action: RecordAction,
    rows: Seq<Record>,
) -> bool {
    &&& spec_has_tab(window.has_many_tabs@, name)
    &&& spec_find_table(tables, name) is Some
    &&& match action {
        RecordAction::Unlink => forall|k: int|
            0 <= k < rows.len() ==> covers_primary(
                spec_find_table(tables, name)->0@,
                (#[trigger] rows[k])@,
            ),
        RecordAction::LinkNew => rows.len() == 0 || insert_ok(
            spec_find_table(tables, name)->0@,
            views_of(rows),
        ),
        RecordAction::Edited => forall|k: int|
            0 <= k < rows.len() ==> covers_all(
                spec_find_table(tables, name)->0@,
                (#[trigger] rows[k])@,
            ),
        _ => false,
    }
}

/// The steps of the first `i` has-many entries.
pub open spec fn has_many_steps_prefix(
    tables: Seq<Table>,
    entries: Seq<(String, RecordAction, Vec<Record>)>,
    i: int,
) -> Seq<StepModel>
    decreases i,
{
    if i <= 0 {
        Seq::empty()
    } else {
        has_many_steps_prefix(tables, entries, i - 1) + has_many_entry_steps(
            tables,
            entries[i - 1].0@,
            entries[i - 1].1,
            entries[i - 1].2@,
        )
    }
}

/// Whether every has-many entry can be planned.
pub open spec fn has_many_ok(
    tables: Seq<Table>,
    window: Window,
    entries: Seq<(String, RecordAction, Vec<Record>)>,
) -> bool {
    forall|k: int|
        0 <= k < entries.len() ==> has_many_entry_ok(
            tables,
            window,
            (#[trigger] entries[k]).0@,
            entries[k].1,
            entries[k].2@,
        )
}

/// Whether every has-many entry before `j` can be planned.
pub open spec fn has_many_ok_upto(
    tables: Seq<Table>,
    window: Window,
    entries: Seq<(String, RecordAction, Vec<Record>)>,
    j: int,
) -> bool {
    forall|q: int|
        0 <= q < j ==> has_many_entry_ok(
            tables,
            window,
            (#[trigger] entries[q]).0@,
            entries[q].1,
            entries[q].2@,
        )
}

/// The actions a has-many row collection admits.
pub open spec fn valid_has_many_action(action: RecordAction) -> bool {
    action is Unlink || action is LinkNew || action is Edited
}

/// The error owed when a has-many entry is rejected before its rows are
/// read: an unknown tab, an unknown table, or an unsupported action, in
/// that order. A row-level failure is classified by the statement builder
/// that meets it instead.
pub open spec fn has_many_entry_rejection(
    tables: Seq<Table>,
    window: Window,
    name: Seq<char>,
    action: RecordAction,
    e: IntelError,
) -> bool {
    if !spec_has_tab(window.has_many_tabs@, name) {
        e matches IntelError::TabNotFound { table: t } && t@ == name
    } else if spec_find_table(tables, name) is None {
        e matches IntelError::TableNotFound { table: t } && t@ == name
    } else if !valid_has_many_action(action) {
        e == IntelError::UnsupportedAction { action }
    } else {
        true
    }
}

/// A failing has-many plan classifies its error by the first entry that
/// cannot be planned.
pub open spec fn has_many_errors_pinned(
    tables: Seq<Table>,
    window: Window,
    entries: Seq<(String, RecordAction, Vec<Record>)>,
    e: IntelError,
) -> bool {
    forall|j: int|
        0 <= j < entries.len() && has_many_ok_upto(tables, window, entries, j)
            && !has_many_entry_ok(
            tables,
            window,
            (#[trigger] entries[j]).0@,
            entries[j].1,
            entries[j].2@,
        ) ==> has_many_entry_rejection(tables, window, entries[j].0@, entries[j].1, e)
}

/// When the entries before `k` can be planned and entry `k` cannot, entry
/// `k` is the only entry that both follows plannable entries and fails.
proof fn lemma_has_many_first_failure(
    tables: Seq<Table>,
    window: Window,
    entries: Seq<(String, RecordAction, Vec<Record>)>,
    k: int,
    j: int,
)
    requires
        0 <= k < entries.len(),
        0 <= j < entries.len(),
        forall|q: int|
            0 <= q < k ==> has_many_entry_ok(
                tables,
                window,
                (#[trigger] entries[q]).0@,
                entries[q].1,
                entries[q].2@,
            ),
        !has_many_entry_ok(tables, window, entries[k].0@, entries[k].1, entries[k].2@),
        has_many_ok_upto(tables, window, entries, j),
        !has_many_entry_ok(tables, window, entries[j].0@, entries[j].1, entries[j].2@),
    ensures
        j == k,
{
    if j < k {
        assert(has_many_entry_ok(
            tables,
            window,
            (entries[j]).0@,
            entries[j].1,
            entries[j].2@,
        ));
    }
    if j > k {
        assert(has_many_entry_ok(
            tables,
            window,
            (entries[k]).0@,
            entries[k].1,
            entries[k].2@,
        ));
    }
}

/// When entry `k` is the first that cannot be planned and `e` classifies
/// its rejection, `e` is pinned for the whole plan.
proof fn lemma_has_many_pinned_at(
    tables: Seq<Table>,
    window: Window,
    entries: Seq<(String, RecordAction, Vec<Record>)>,
    k: int,
    e: IntelError,
)
    requires
        0 <= k < entries.len(),
        forall|q: int|
            0 <= q < k ==> has_many_entry_ok(
                tables,
                window,
                (#[trigger] entries[q]).0@,
                entries[q].1,
                entries[q].2@,
            ),
        !has_many_entry_ok(tables, window, entries[k].0@, entries[k].1, entries[k].2@),
        has_many_entry_rejection(tables, window, entries[k].0@, entries[k].1, e),
    ensures
        has_many_errors_pinned(tables, window, entries, e),
{
    assert forall|j: int|
        0 <= j < entries.len() && has_many_ok_upto(tables, window, entries, j)
            && !has_many_entry_ok(
            tables,
            window,
            (#[trigger] entries[j]).0@,
            entries[j].1,
            entries[j].2@,
        ) implies has_many_entry_rejection(tables, window, entries[j].0@, entries[j].1, e) by {
        lemma_has_many_first_failure(tables, window, entries, k, j);
    }
}

/// The content of the linker record for one indirect row, resolved against
/// the linker table's two foreign-key pairs.
pub open spec fn indirect_linker_content(
    lt: TableModel,
    mt: TableModel,
    it: TableModel,
    mrec: Seq<(Seq<char>, Value)>,
    row: Seq<(Seq<char>, Value)>,
) -> Seq<(Seq<char>, Value)> {
    linker_content(
        lt.fk_pairs_to(mt.name)[0].local_column@,
        spec_get(mrec, lt.fk_pairs_to(mt.name)[0].referred_column@)->0,
        lt.fk_pairs_to(it.name)[0].local_column@,
        spec_get(row, lt.fk_pairs_to(it.name)[0].referred_column@)->0,
    )
}

/// The first `j` linker-delete steps of an indirect `Unlink` batch.
pub open spec fn unlink_linker_steps(
    lt: Table,
    mt: TableModel,
    it: Table,
    mrec: Seq<(Seq<char>, Value)>,
    rows: Seq<Record>,
    j: int,
) -> Seq<StepModel> {
    Seq::new(
        j as nat,
        |q: int|
            StepModel::Exec(
                delete_model(lt@, indirect_linker_content(lt@, mt, it@, mrec, rows[q]@)),
            ),
    )
}

/// The first `j` insert-then-link steps of an indirect `LinkNew` batch.
pub open spec fn link_new_steps(it: Table, lt: Table, rows: Seq<Record>, j: int) -> Seq<StepModel> {
    Seq::new(
        j as nat,
        |q: int|
            StepModel::InsertThenLink {
                statement: insert_model(it@, seq![rows[q]@]),
                indirect_table: it@,
                linker_table: lt@,
            },
    )
}

/// The first `j` linker-insert steps of an indirect `LinkExisting` batch.
pub open spec fn link_existing_steps(
    lt: Table,
    mt: TableModel,
    it: Table,
    mrec: Seq<(Seq<char>, Value)>,
    rows: Seq<Record>,
    j: int,
) -> Seq<StepModel> {
    Seq::new(
        j as nat,
        |q: int|
            StepModel::Exec(
                linker_insert_model(lt@, indirect_linker_content(lt@, mt, it@, mrec, rows[q]@)),
            ),
    )
}

/// The steps one indirect entry contributes. `Unlink` deletes the linker
/// row of each record; `LinkNew` inserts each record into the indirect
/// table and then links it; `LinkExisting` only links.
pub open spec fn indirect_entry_steps(
    tables: Seq<Table>,
    mt: TableModel,
    mrec: Seq<(Seq<char>, Value)>,
    ind_name: Seq<char>,
    via_name: Seq<char>,
    action: RecordAction,
    rows: Seq<Record>,
) -> Seq<StepModel> {
    let it = spec_find_table(tables, ind_name)->0;
    let lt = spec_find_table(tables, via_name)->0;
    match action {
        RecordAction::Unlink => unlink_linker_steps(lt, mt, it, mrec, rows, rows.len() as int),
        RecordAction::LinkNew => link_new_steps(it, lt, rows, rows.len() as int),
        RecordAction::LinkExisting => link_existing_steps(
            lt,
            mt,
            it,
            mrec,
            rows,
            rows.len() as int,
        ),
        _ => Seq::empty(),
    }
}

/// Whether one indirect entry can be planned.
pub open spec fn indirect_entry_ok(
    tables: Seq<Table>,
    mt: TableModel,
    mrec: Seq<(Seq<char>, Value)>,
    ind_name: Seq<char>,
    via_name: Seq<char>,
    action: RecordAction,
    rows: Seq<Record>,
) -> bool {
    let it = spec_find_table(tables, ind_name)->0;
    let lt = spec_find_table(tables, via_name)->0;
    &&& spec_find_table(tables, ind_name) is Some
    &&& spec_find_table(tables, via_name) is Some
    &&& match action {
        RecordAction::Unlink => forall|k: int|
            0 <= k < rows.len() ==> create_linker_ok(lt@, mt, it@, mrec, (#[trigger] rows[k])@)
                && covers_primary(lt@, indirect_linker_content(lt@, mt, it@, mrec, rows[k]@)),
        RecordAction::LinkNew => forall|k: int|
            0 <= k < rows.len() ==> insert_ok(it@, seq![(#[trigger] rows[k])@]),
        RecordAction::LinkExisting => forall|k: int|
            0 <= k < rows.len() ==> create_linker_ok(lt@, mt, it@, mrec, (#[trigger] rows[k])@)
                && linker_ok(lt@, indirect_linker_content(lt@, mt, it@, mrec, rows[k]@)),
        _ => false,
    }
}

/// The steps of the first `i` indirect entries.
pub open spec fn indirect_steps_prefix(
    tables: Seq<Table>,
    mt: TableModel,
    mrec: Seq<(Seq<char>, Value)>,
    entries: Seq<(String, String, RecordAction, Vec<Record>)>,
    i: int,
) -> Seq<StepModel>
    decreases i,
{
    if i <= 0 {
        Seq::empty()
    } else {
        indirect_steps_prefix(tables, mt, mrec, entries, i - 1) + indirect_entry_steps(
            tables,
            mt,
            mrec,
            entries[i - 1].0@,
            entries[i - 1].1@,
            entries[i - 1].2,
            entries[i - 1].3@,
        )
    }
}

/// Whether every indirect entry can be planned.
pub open spec fn indirect_ok(
    tables: Seq<Table>,
    mt: TableModel,
    mrec: Seq<(Seq<char>, Value)>,
    entries: Seq<(String, String, RecordAction, Vec<Record>)>,
) -> bool {
    forall|k: int|
        0 <= k < entries.len() ==> indirect_entry_ok(
            tables,
            mt,
            mrec,
            (#[trigger] entries[k]).0@,
            entries[k].1@,
            entries[k].2,
            entries[k].3@,
        )
}

/// Whether every indirect entry before `j` can be planned.
pub open spec fn indirect_ok_upto(
    tables: Seq<Table>,
    mt: TableModel,
    mrec: Seq<(Seq<char>, Value)>,
    entries: Seq<(String, String, RecordAction, Vec<Record>)>,
    j: int,
) -> bool {
    forall|q: int|
        0 <= q < j ==> indirect_entry_ok(
            tables,
            mt,
            mrec,
            (#[trigger] entries[q]).0@,
            entries[q].1@,
            entries[q].2,
            entries[q].3@,
        )
}

/// The actions an indirect row collection admits.
pub open spec fn valid_indirect_action(action: RecordAction) -> bool {
    action is Unlink || action is LinkNew || action is LinkExisting
}

/// The error owed when an indirect entry is rejected before its rows are
/// read: an unknown indirect table, an unknown linker table, or an
/// unsupported action, in that order. A row-level failure is classified by
/// the resolver or builder that meets it instead.
pub open spec fn indirect_entry_rejection(
    tables: Seq<Table>,
    ind_name: Seq<char>,
    via_name: Seq<char>,
    action: RecordAction,
    e: IntelError,
) -> bool {
    if spec_find_table(tables, ind_name) is None {
        e matches IntelError::TableNotFound { table: t } && t@ == ind_name
    } else if spec_find_table(tables, via_name) is None {
        e matches IntelError::TableNotFound { table: t } && t@ == via_name
    } else if !valid_indirect_action(action) {
        e == IntelError::UnsupportedAction { action }
    } else {
        true
    }
}

/// A failing indirect plan classifies its error by the first entry that
/// cannot be planned.
pub open spec fn indirect_errors_pinned(
    tables: Seq<Table>,
    mt: TableModel,
    mrec: Seq<(Seq<char>, Value)>,
    entries: Seq<(String, String, RecordAction, Vec<Record>)>,
    e: IntelError,
) -> bool {
    forall|j: int|
        0 <= j < entries.len() && indirect_ok_upto(tables, mt, mrec, entries, j)
            && !indirect_entry_ok(
            tables,
            mt,
            mrec,
            (#[trigger] entries[j]).0@,
            entries[j].1@,
            entries[j].2,
            entries[j].3@,
        ) ==> indirect_entry_rejection(tables, entries[j].0@, entries[j].1@, entries[j].2, e)
}

/// When the entries before `k` can be planned and entry `k` cannot, entry
/// `k` is the only entry that both follows plannable entries and fails.
proof fn lemma_indirect_first_failure(
    tables: Seq<Table>,
    mt: TableModel,
    mrec: Seq<(Seq<char>, Value)>,
    entries: Seq<(String, String, RecordAction, Vec<Record>)>,
    k: int,
    j: int,
)
    requires
        0 <= k < entries.len(),
        0 <= j < entries.len(),
        forall|q: int|
            0 <= q < k ==> indirect_entry_ok(
                tables,
                mt,
                mrec,
                (#[trigger] entries[q]).0@,
                entries[q].1@,
                entries[q].2,
                entries[q].3@,
            ),
        !indirect_entry_ok(tables, mt, mrec, entries[k].0@, entries[k].1@, entries[k].2, entries[k].3@),
        indirect_ok_upto(tables, mt, mrec, entries, j),
        !indirect_entry_ok(tables, mt, mrec, entries[j].0@, entries[j].1@, entries[j].2, entries[j].3@),
    ensures
        j == k,
{
    if j < k {
        assert(indirect_entry_ok(
            tables,
            mt,
            mrec,
            (entries[j]).0@,
            entries[j].1@,
            entries[j].2,
            entries[j].3@,
        ));
    }
    if j > k {
        assert(indirect_entry_ok(
            tables,
            mt,
            mrec,
            (entries[k]).0@,
            entries[k].1@,
            entries[k].2,
            entries[k].3@,
        ));
    }
}

/// When entry `k` is the first that cannot be planned and `e` classifies
/// its rejection, `e` is pinned for the whole plan.
proof fn lemma_indirect_pinned_at(
    tables: Seq<Table>,
    mt: TableModel,
    mrec: Seq<(Seq<char>, Value)>,
    entries: Seq<(String, String, RecordAction, Vec<Record>)>,
    k: int,
    e: IntelError,
)
    requires
        0 <= k < entries.len(),
        forall|q: int|
            0 <= q < k ==> indirect_entry_ok(
                tables,
                mt,
                mrec,
                (#[trigger] entries[q]).0@,
                entries[q].1@,
                entries[q].2,
                entries[q].3@,
            ),
        !indirect_entry_ok(tables, mt, mrec, entries[k].0@, entries[k].1@, entries[k].2, entries[k].3@),
        indirect_entry_rejection(tables, entries[k].0@, entries[k].1@, entries[k].2, e),
    ensures
        indirect_errors_pinned(tables, mt, mrec, entries, e),
{
    assert forall|j: int|
        0 <= j < entries.len() && indirect_ok_upto(tables, mt, mrec, entries, j)
            && !indirect_entry_ok(
            tables,
            mt,
            mrec,
            (#[trigger] entries[j]).0@,
            entries[j].1@,
            entries[j].2,
            entries[j].3@,
        ) implies indirect_entry_rejection(tables, entries[j].0@, entries[j].1@, entries[j].2, e) by {
        lemma_indirect_first_failure(tables, mt, mrec, entries, k, j);
    }
}

/// Whether the whole dependent plan (after the main record) can be built.
pub open spec fn plan_ok(
    tables: Seq<Table>,
    window: Window,
    mt: TableModel,
    mrec: Seq<(Seq<char>, Value)>,
    cs: RecordChangeset,
) -> bool {
    &&& one_ones_ok(tables, mt, mrec, cs.one_ones@)
    &&& has_many_ok(tables, window, cs.has_many@)
    &&& indirect_ok(tables, mt, mrec, cs.indirect@)
}

/// The dependent plan: one-one upserts, then has-many operations, then
/// indirect operations, each section in the order the changeset gives.
pub open spec fn plan_model(
    tables: Seq<Table>,
    mt: TableModel,
    mrec: Seq<(Seq<char>, Value)>,
    cs: RecordChangeset,
) -> Seq<StepModel> {
    one_one_steps_prefix(tables, mt, mrec, cs.one_ones@, cs.one_ones@.len() as int)
        + has_many_steps_prefix(tables, cs.has_many@, cs.has_many@.len() as int)
        + indirect_steps_prefix(tables, mt, mrec, cs.indirect@, cs.indirect@.len() as int)
}

/// Plans the one-one section: an upsert per present record whose table is
/// loaded.
fn plan_one_ones(
    tables: &Vec<Table>,
    main_table: &Table,
    main_record: &Record,
    entries: &Vec<(String, Option<Record>)>,
    steps: &mut Vec<PlanStep>,
) -> (r: Result<(), IntelError>)
    ensures
        r is Ok <==> one_ones_ok(tables@, main_table@, main_record@, entries@),
        r is Ok ==> steps_view(final (steps)@) == steps_view(old(steps)@) + one_one_steps_prefix(
            tables@,
            main_table@,
            main_record@,
            entries@,
            entries@.len() as int,
        ),
{
    let n = entries.len();
    let mut k: usize = 0;
    while k < n
        invariant
            n == entries@.len(),
            k <= n,
            steps_view(steps@) == steps_view(old(steps)@) + one_one_steps_prefix(
                tables@,
                main_table@,
                main_record@,
                entries@,
                k as int,
            ),
            forall|j: int|
                0 <= j < k ==> one_one_entry_ok(
                    tables@,
                    main_table@,
                    main_record@,
                    (#[trigger] entries@[j]).0@,
                    entries@[j].1,
                ),
        decreases n - k,
    {
        let ghost pre = steps_view(steps@);
        match &entries[k].1 {
            None => {
                proof {
                    assert(one_one_entry_steps(
                        tables@,
                        main_table@,
                        main_record@,
                        entries@[k as int].0@,
                        entries@[k as int].1,
                    ) =~= Seq::<StepModel>::empty());
                    assert(steps_view(steps@) =~= steps_view(old(steps)@)
                        + one_one_steps_prefix(
                        tables@,
                        main_table@,
                        main_record@,
                        entries@,
                        k as int + 1,
                    ));
                }
            },
            Some(rec) => {
                match get_table(tables, entries[k].0.as_str()) {
                    None => {
                        proof {
                            assert(one_one_entry_steps(
                                tables@,
                                main_table@,
                                main_record@,
                                entries@[k as int].0@,
                                entries@[k as int].1,
                            ) =~= Seq::<StepModel>::empty());
                            assert(steps_view(steps@) =~= steps_view(old(steps)@)
                                + one_one_steps_prefix(
                                tables@,
                                main_table@,
                                main_record@,
                                entries@,
                                k as int + 1,
                            ));
                        }
                    },
                    Some(t) => {
                        match upsert_statement(main_table, main_record, t, rec) {
                            Ok(s) => {
                                proof {
                                    assert(spec_find_table(tables@, entries@[k as int].0@)
                                        == Some(*t));
                                }
                                steps.push(PlanStep::Exec(s));
                                proof {
                                    assert(steps_view(steps@) =~= pre.push(
                                        StepModel::Exec(s@),
                                    ));
                                    assert(one_one_entry_steps(
                                        tables@,
                                        main_table@,
                                        main_record@,
                                        entries@[k as int].0@,
                                        entries@[k as int].1,
                                    ) =~= seq![StepModel::Exec(s@)]);
                                    assert(steps_view(steps@) =~= steps_view(old(steps)@)
                                        + one_one_steps_prefix(
                                        tables@,
                                        main_table@,
                                        main_record@,
                                        entries@,
                                        k as int + 1,
                                    ));
                                }
                            },
                            Err(e) => {
                                proof {
                                    assert(!one_one_entry_ok(
                                        tables@,
                                        main_table@,
                                        main_record@,
                                        entries@[k as int].0@,
                                        entries@[k as int].1,
                                    ));
                                }
                                return Err(e);
                            },
                        }
                    },
                }
            },
        }
        k += 1;
    }
    Ok(())
}

/// Plans the has-many section: deletes for `Unlink`, a batch insert for
/// `LinkNew`, updates for `Edited`; any other action is unsupported. The
/// table must belong to the window's has-many tabs and be loaded.
fn plan_has_many(
    tables: &Vec<Table>,
    window: &Window,
    entries: &Vec<(String, RecordAction, Vec<Record>)>,
    steps: &mut Vec<PlanStep>,
) -> (r: Result<(), IntelError>)
    ensures
        r is Ok <==> has_many_ok(tables@, *window, entries@),
        r is Ok ==> steps_view(final (steps)@) == steps_view(old(steps)@) + has_many_steps_prefix(
            tables@,
            entries@,
            entries@.len() as int,
        ),
        r matches Err(e) ==> has_many_errors_pinned(tables@, *window, entries@, e),
{
    let n = entries.len();
    let mut k: usize = 0;
    while k < n
        invariant
            n == entries@.len(),
            k <= n,
            steps_view(steps@) == steps_view(old(steps)@) + has_many_steps_prefix(
                tables@,
                entries@,
                k as int,
            ),
            forall|j: int|
                0 <= j < k ==> has_many_entry_ok(
                    tables@,
                    *window,
                    (#[trigger] entries@[j]).0@,
                    entries@[j].1,
                    entries@[j].2@,
                ),
        decreases n - k,
    {
        let ghost pre = steps_view(steps@);
        let ghost ename = entries@[k as int].0@;
        let ghost eaction = entries@[k as int].1;
        let ghost erows = entries@[k as int].2@;
        if !has_tab(&window.has_many_tabs, entries[k].0.as_str()) {
            let err = IntelError::TabNotFound { table: entries[k].0.clone() };
            proof {
                assert(!has_many_entry_ok(tables@, *window, ename, eaction, erows));
                lemma_has_many_pinned_at(tables@, *window, entries@, k as int, err);
            }
            return Err(err);
        }
        let t = match get_table(tables, entries[k].0.as_str()) {
            Some(t) => t,
            None => {
                let err = IntelError::TableNotFound { table: entries[k].0.clone() };
                proof {
                    assert(!has_many_entry_ok(tables@, *window, ename, eaction, erows));
                    lemma_has_many_pinned_at(tables@, *window, entries@, k as int, err);
                }
                return Err(err);
            },
        };
        proof {
            assert(spec_find_table(tables@, ename) == Some(*t));
        }
        let rows = &entries[k].2;
        match entries[k].1 {
            RecordAction::Unlink => {
                let nr = rows.len();
                let mut j: usize = 0;
                proof {
                    assert(steps_view(steps@) =~= pre + delete_steps(*t, rows@, 0));
                }
                while j < nr
                    invariant
                        nr == rows@.len(),
                        j <= nr,
                        n == entries@.len(),
                        k < n,
                        rows@ == entries@[k as int].2@,
                        erows == rows@,
                        ename == entries@[k as int].0@,
                        eaction == entries@[k as int].1,
                        eaction is Unlink,
                        spec_has_tab(window.has_many_tabs@, ename),
                        forall|q: int|
                            0 <= q < k ==> has_many_entry_ok(
                                tables@,
                                *window,
                                (#[trigger] entries@[q]).0@,
                                entries@[q].1,
                                entries@[q].2@,
                            ),
                        spec_find_table(tables@, ename) == Some(*t),
                        pre == steps_view(old(steps)@) + has_many_steps_prefix(
                            tables@,
                            entries@,
                            k as int,
                        ),
                        steps_view(steps@) == pre + delete_steps(*t, rows@, j as int),
                        forall|q: int| 0 <= q < j ==> covers_primary(t@, (#[trigger] rows@[q])@),
                    decreases nr - j,
                {
                    match delete_statement(t, &rows[j]) {
                        Ok(s) => {
                            let ghost svp = steps_view(steps@);
                            let ghost sm = s@;
                            steps.push(PlanStep::Exec(s));
                            proof {
                                assert(steps_view(steps@) =~= svp.push(StepModel::Exec(sm)));
                                assert(delete_steps(*t, rows@, j as int + 1) =~= delete_steps(
                                    *t,
                                    rows@,
                                    j as int,
                                ).push(StepModel::Exec(delete_model(t@, rows@[j as int]@))));
                                assert((pre + delete_steps(*t, rows@, j as int)).push(
                                    StepModel::Exec(sm),
                                ) =~= pre + delete_steps(*t, rows@, j as int + 1));
                                assert(steps_view(steps@) == pre + delete_steps(
                                    *t,
                                    rows@,
                                    j as int + 1,
                                ));
                            }
                        },
                        Err(e) => {
                            proof {
                                assert(!covers_primary(
                                    spec_find_table(tables@, ename)->0@,
                                    rows@[j as int]@,
                                ));
                                assert(!has_many_entry_ok(tables@, *window, ename, eaction, erows));
                                assert(!has_many_ok(tables@, *window, entries@));
                                lemma_has_many_pinned_at(tables@, *window, entries@, k as int, e);
                            }
                            return Err(e);
                        },
                    }
                    j += 1;
                }
                proof {
                    assert(has_many_entry_steps(tables@, ename, eaction, erows) == delete_steps(
                        *t,
                        rows@,
                        nr as int,
                    ));
                    assert(steps_view(steps@) == pre + delete_steps(*t, rows@, nr as int));
                    assert(has_many_steps_prefix(tables@, entries@, k as int + 1)
                        == has_many_steps_prefix(tables@, entries@, k as int)
                        + has_many_entry_steps(tables@, ename, eaction, erows));
                    vstd::seq_lib::lemma_concat_associative(
                        steps_view(old(steps)@),
                        has_many_steps_prefix(tables@, entries@, k as int),
                        delete_steps(*t, rows@, nr as int),
                    );
                    assert(steps_view(steps@) == steps_view(old(steps)@) + has_many_steps_prefix(
                        tables@,
                        entries@,
                        k as int + 1,
                    ));
                }
            },
            RecordAction::LinkNew => {
                if rows.len() > 0 {
                    match insert_statement(t, rows) {
                        Ok(s) => {
                            let ghost sm = s@;
                            steps.push(PlanStep::Exec(s));
                            proof {
                                assert(has_many_entry_steps(tables@, ename, eaction, erows)
                                    =~= seq![StepModel::Exec(sm)]);
                                assert(steps_view(steps@) =~= pre.push(StepModel::Exec(sm)));
                                assert(pre.push(StepModel::Exec(sm)) =~= pre + seq![
                                    StepModel::Exec(sm),
                                ]);
                                assert(has_many_steps_prefix(tables@, entries@, k as int + 1)
                                    == has_many_steps_prefix(tables@, entries@, k as int)
                                    + has_many_entry_steps(tables@, ename, eaction, erows));
                                vstd::seq_lib::lemma_concat_associative(
                                    steps_view(old(steps)@),
                                    has_many_steps_prefix(tables@, entries@, k as int),
                                    seq![StepModel::Exec(sm)],
                                );
                                assert(steps_view(steps@) == steps_view(old(steps)@)
                                    + has_many_steps_prefix(tables@, entries@, k as int + 1));
                            }
                        },
                        Err(e) => {
                            proof {
                                assert(!has_many_entry_ok(tables@, *window, ename, eaction, erows));
                                lemma_has_many_pinned_at(tables@, *window, entries@, k as int, e);
                            }
                            return Err(e);
                        },
                    }
                } else {
                    proof {
                        assert(has_many_entry_steps(tables@, ename, eaction, erows)
                            =~= Seq::<StepModel>::empty());
                        assert(has_many_steps_prefix(tables@, entries@, k as int + 1)
                            =~= has_many_steps_prefix(tables@, entries@, k as int));
                        assert(steps_view(steps@) == steps_view(old(steps)@)
                            + has_many_steps_prefix(tables@, entries@, k as int + 1));
                    }
                }
            },
            RecordAction::Edited => {
                let nr = rows.len();
                let mut j: usize = 0;
                proof {
                    assert(steps_view(steps@) =~= pre + update_steps(*t, rows@, 0));
                }
                while j < nr
                    invariant
                        nr == rows@.len(),
                        j <= nr,
                        n == entries@.len(),
                        k < n,
                        rows@ == entries@[k as int].2@,
                        erows == rows@,
                        ename == entries@[k as int].0@,
                        eaction == entries@[k as int].1,
                        eaction is Edited,
                        spec_has_tab(window.has_many_tabs@, ename),
                        forall|q: int|
                            0 <= q < k ==> has_many_entry_ok(
                                tables@,
                                *window,
                                (#[trigger] entries@[q]).0@,
                                entries@[q].1,
                                entries@[q].2@,
                            ),
                        spec_find_table(tables@, ename) == Some(*t),
                        pre == steps_view(old(steps)@) + has_many_steps_prefix(
                            tables@,
                            entries@,
                            k as int,
                        ),
                        steps_view(steps@) == pre + update_steps(*t, rows@, j as int),
                        forall|q: int| 0 <= q < j ==> covers_all(t@, (#[trigger] rows@[q])@),
                    decreases nr - j,
                {
                    match update_statement(t, &rows[j]) {
                        Ok(s) => {
                            let ghost svp = steps_view(steps@);
                            let ghost sm = s@;
                            steps.push(PlanStep::Exec(s));
                            proof {
                                assert(steps_view(steps@) =~= svp.push(StepModel::Exec(sm)));
                                assert(update_steps(*t, rows@, j as int + 1) =~= update_steps(
                                    *t,
                                    rows@,
                                    j as int,
                                ).push(StepModel::Exec(update_model(t@, rows@[j as int]@))));
                                assert((pre + update_steps(*t, rows@, j as int)).push(
                                    StepModel::Exec(sm),
                                ) =~= pre + update_steps(*t, rows@, j as int + 1));
                                assert(steps_view(steps@) == pre + update_steps(
                                    *t,
                                    rows@,
                                    j as int + 1,
                                ));
                            }
                        },
                        Err(e) => {
                            proof {
                                assert(!covers_all(
                                    spec_find_table(tables@, ename)->0@,
                                    rows@[j as int]@,
                                ));
                                assert(!has_many_entry_ok(tables@, *window, ename, eaction, erows));
                                assert(!has_many_ok(tables@, *window, entries@));
                                lemma_has_many_pinned_at(tables@, *window, entries@, k as int, e);
                            }
                            return Err(e);
                        },
                    }
                    j += 1;
                }
                proof {
                    assert(has_many_entry_steps(tables@, ename, eaction, erows) == update_steps(
                        *t,
                        rows@,
                        nr as int,
                    ));
                    assert(steps_view(steps@) == pre + update_steps(*t, rows@, nr as int));
                    assert(has_many_steps_prefix(tables@, entries@, k as int + 1)
                        == has_many_steps_prefix(tables@, entries@, k as int)
                        + has_many_entry_steps(tables@, ename, eaction, erows));
                    vstd::seq_lib::lemma_concat_associative(
                        steps_view(old(steps)@),
                        has_many_steps_prefix(tables@, entries@, k as int),
                        update_steps(*t, rows@, nr as int),
                    );
                    assert(steps_view(steps@) == steps_view(old(steps)@) + has_many_steps_prefix(
                        tables@,
                        entries@,
                        k as int + 1,
                    ));
                }
            },
            _ => {
                let err = IntelError::UnsupportedAction { action: entries[k].1 };
                proof {
                    assert(!has_many_entry_ok(tables@, *window, ename, eaction, erows));
                    assert(!valid_has_many_action(eaction));
                    lemma_has_many_pinned_at(tables@, *window, entries@, k as int, err);
                }
                return Err(err);
            },
        }
        k += 1;
    }
    Ok(())
}


/// Plans the indirect section. `Unlink` deletes each row's linker record
/// from the linker table (the indirect record is untouched); `LinkNew`
/// inserts each row into the indirect table and then links it;
/// `LinkExisting` only links; any other action is unsupported.
fn plan_indirect(
    tables: &Vec<Table>,
    main_table: &Table,
    main_record: &Record,
    entries: &Vec<(String, String, RecordAction, Vec<Record>)>,
    steps: &mut Vec<PlanStep>,
) -> (r: Result<(), IntelError>)
    ensures
        r is Ok <==> indirect_ok(tables@, main_table@, main_record@, entries@),
        r is Ok ==> steps_view(final (steps)@) == steps_view(old(steps)@) + indirect_steps_prefix(
            tables@,
            main_table@,
            main_record@,
            entries@,
            entries@.len() as int,
        ),
        r matches Err(e) ==> indirect_errors_pinned(
            tables@,
            main_table@,
            main_record@,
            entries@,
            e,
        ),
{
    let n = entries.len();
    let mut k: usize = 0;
    while k < n
        invariant
            n == entries@.len(),
            k <= n,
            steps_view(steps@) == steps_view(old(steps)@) + indirect_steps_prefix(
                tables@,
                main_table@,
                main_record@,
                entries@,
                k as int,
            ),
            forall|j: int|
                0 <= j < k ==> indirect_entry_ok(
                    tables@,
                    main_table@,
                    main_record@,
                    (#[trigger] entries@[j]).0@,
                    entries@[j].1@,
                    entries@[j].2,
                    entries@[j].3@,
                ),
        decreases n - k,
    {
        let ghost pre = steps_view(steps@);
        let ghost iname = entries@[k as int].0@;
        let ghost vname = entries@[k as int].1@;
        let ghost eaction = entries@[k as int].2;
        let ghost erows = entries@[k as int].3@;
        let it = match get_table(tables, entries[k].0.as_str()) {
            Some(t) => t,
            None => {
                let err = IntelError::TableNotFound { table: entries[k].0.clone() };
                proof {
                    assert(!indirect_entry_ok(
                        tables@,
                        main_table@,
                        main_record@,
                        iname,
                        vname,
                        eaction,
                        erows,
                    ));
                    lemma_indirect_pinned_at(
                        tables@,
                        main_table@,
                        main_record@,
                        entries@,
                        k as int,
                        err,
                    );
                }
                return Err(err);
            },
        };
        let lt = match get_table(tables, entries[k].1.as_str()) {
            Some(t) => t,
            None => {
                let err = IntelError::TableNotFound { table: entries[k].1.clone() };
                proof {
                    assert(!indirect_entry_ok(
                        tables@,
                        main_table@,
                        main_record@,
                        iname,
                        vname,
                        eaction,
                        erows,
                    ));
                    lemma_indirect_pinned_at(
                        tables@,
                        main_table@,
                        main_record@,
                        entries@,
                        k as int,
                        err,
                    );
                }
                return Err(err);
            },
        };
        proof {
            assert(spec_find_table(tables@, iname) == Some(*it));
            assert(spec_find_table(tables@, vname) == Some(*lt));
        }
        let rows = &entries[k].3;
        match entries[k].2 {
            RecordAction::Unlink => {
                let nr = rows.len();
                let mut j: usize = 0;
                proof {
                    assert(steps_view(steps@) =~= pre + unlink_linker_steps(
                        *lt,
                        main_table@,
                        *it,
                        main_record@,
                        rows@,
                        0,
                    ));
                }
                while j < nr
                    invariant
                        nr == rows@.len(),
                        j <= nr,
                        n == entries@.len(),
                        k < n,
                        rows@ == entries@[k as int].3@,
                        erows == rows@,
                        iname == entries@[k as int].0@,
                        vname == entries@[k as int].1@,
                        eaction == entries@[k as int].2,
                        eaction is Unlink,
                        forall|q: int|
                            0 <= q < k ==> indirect_entry_ok(
                                tables@,
                                main_table@,
                                main_record@,
                                (#[trigger] entries@[q]).0@,
                                entries@[q].1@,
                                entries@[q].2,
                                entries@[q].3@,
                            ),
                        spec_find_table(tables@, iname) == Some(*it),
                        spec_find_table(tables@, vname) == Some(*lt),
                        pre == steps_view(old(steps)@) + indirect_steps_prefix(
                            tables@,
                            main_table@,
                            main_record@,
                            entries@,
                            k as int,
                        ),
                        steps_view(steps@) == pre + unlink_linker_steps(
                            *lt,
                            main_table@,
                            *it,
                            main_record@,
                            rows@,
                            j as int,
                        ),
                        forall|q: int|
                            0 <= q < j ==> create_linker_ok(
                                lt@,
                                main_table@,
                                it@,
                                main_record@,
                                (#[trigger] rows@[q])@,
                            ) && covers_primary(
                                lt@,
                                indirect_linker_content(
                                    lt@,
                                    main_table@,
                                    it@,
                                    main_record@,
                                    rows@[q]@,
                                ),
                            ),
                    decreases nr - j,
                {
                    let linker = match create_linker_record(
                        main_table,
                        main_record,
                        lt,
                        it,
                        &rows[j],
                    ) {
                        Ok(rec) => rec,
                        Err(e) => {
                            proof {
                                assert(!create_linker_ok(
                                    lt@,
                                    main_table@,
                                    it@,
                                    main_record@,
                                    rows@[j as int]@,
                                ));
                                assert(!indirect_entry_ok(
                                    tables@,
                                    main_table@,
                                    main_record@,
                                    iname,
                                    vname,
                                    eaction,
                                    erows,
                                ));
                                assert(!indirect_ok(tables@, main_table@, main_record@, entries@));
                                lemma_indirect_pinned_at(
                                    tables@,
                                    main_table@,
                                    main_record@,
                                    entries@,
                                    k as int,
                                    e,
                                );
                            }
                            return Err(e);
                        },
                    };
                    proof {
                        assert(linker@ == indirect_linker_content(
                            lt@,
                            main_table@,
                            it@,
                            main_record@,
                            rows@[j as int]@,
                        ));
                    }
                    match delete_statement(lt, &linker) {
                        Ok(s) => {
                            let ghost sm = s@;
                            steps.push(PlanStep::Exec(s));
                            proof {
                                assert(steps_view(steps@) =~= (pre + unlink_linker_steps(
                                    *lt,
                                    main_table@,
                                    *it,
                                    main_record@,
                                    rows@,
                                    j as int,
                                )).push(StepModel::Exec(sm)));
                                assert((pre + unlink_linker_steps(
                                    *lt,
                                    main_table@,
                                    *it,
                                    main_record@,
                                    rows@,
                                    j as int,
                                )).push(StepModel::Exec(sm)) =~= pre + unlink_linker_steps(
                                    *lt,
                                    main_table@,
                                    *it,
                                    main_record@,
                                    rows@,
                                    j as int + 1,
                                ));
                                assert(steps_view(steps@) == pre + unlink_linker_steps(
                                    *lt,
                                    main_table@,
                                    *it,
                                    main_record@,
                                    rows@,
                                    j as int + 1,
                                ));
                            }
                        },
                        Err(e) => {
                            proof {
                                assert(!covers_primary(
                                    lt@,
                                    indirect_linker_content(
                                        lt@,
                                        main_table@,
                                        it@,
                                        main_record@,
                                        rows@[j as int]@,
                                    ),
                                ));
                                assert(!indirect_entry_ok(
                                    tables@,
                                    main_table@,
                                    main_record@,
                                    iname,
                                    vname,
                                    eaction,
                                    erows,
                                ));
                                assert(!indirect_ok(tables@, main_table@, main_record@, entries@));
                                lemma_indirect_pinned_at(
                                    tables@,
                                    main_table@,
                                    main_record@,
                                    entries@,
                                    k as int,
                                    e,
                                );
                            }
                            return Err(e);
                        },
                    }
                    j += 1;
                }
                proof {
                    assert(indirect_entry_steps(
                        tables@,
                        main_table@,
                        main_record@,
                        iname,
                        vname,
                        eaction,
                        erows,
                    ) == unlink_linker_steps(*lt, main_table@, *it, main_record@, rows@, nr as int));
                    assert(indirect_steps_prefix(
                        tables@,
                        main_table@,
                        main_record@,
                        entries@,
                        k as int + 1,
                    ) == indirect_steps_prefix(
                        tables@,
                        main_table@,
                        main_record@,
                        entries@,
                        k as int,
                    ) + indirect_entry_steps(
                        tables@,
                        main_table@,
                        main_record@,
                        iname,
                        vname,
                        eaction,
                        erows,
                    ));
                    vstd::seq_lib::lemma_concat_associative(
                        steps_view(old(steps)@),
                        indirect_steps_prefix(
                            tables@,
                            main_table@,
                            main_record@,
                            entries@,
                            k as int,
                        ),
                        unlink_linker_steps(*lt, main_table@, *it, main_record@, rows@, nr as int),
                    );
                    assert(steps_view(steps@) == steps_view(old(steps)@) + indirect_steps_prefix(
                        tables@,
                        main_table@,
                        main_record@,
                        entries@,
                        k as int + 1,
                    ));
                }
            },
            RecordAction::LinkNew => {
                let nr = rows.len();
                let mut j: usize = 0;
                proof {
                    assert(steps_view(steps@) =~= pre + link_new_steps(*it, *lt, rows@, 0));
                }
                while j < nr
                    invariant
                        nr == rows@.len(),
                        j <= nr,
                        n == entries@.len(),
                        k < n,
                        rows@ == entries@[k as int].3@,
                        erows == rows@,
                        iname == entries@[k as int].0@,
                        vname == entries@[k as int].1@,
                        eaction == entries@[k as int].2,
                        eaction is LinkNew,
                        forall|q: int|
                            0 <= q < k ==> indirect_entry_ok(
                                tables@,
                                main_table@,
                                main_record@,
                                (#[trigger] entries@[q]).0@,
                                entries@[q].1@,
                                entries@[q].2,
                                entries@[q].3@,
                            ),
                        spec_find_table(tables@, iname) == Some(*it),
                        spec_find_table(tables@, vname) == Some(*lt),
                        pre == steps_view(old(steps)@) + indirect_steps_prefix(
                            tables@,
                            main_table@,
                            main_record@,
                            entries@,
                            k as int,
                        ),
                        steps_view(steps@) == pre + link_new_steps(*it, *lt, rows@, j as int),
                        forall|q: int|
                            0 <= q < j ==> insert_ok(it@, seq![(#[trigger] rows@[q])@]),
                    decreases nr - j,
                {
                    let mut one: Vec<Record> = Vec::new();
                    one.push(rows[j].clone_record());
                    proof {
                        assert(views_of(one@) =~= seq![rows@[j as int]@]);
                    }
                    match insert_statement(it, &one) {
                        Ok(s) => {
                            let ghost sm = s@;
                            proof {
                                assert(sm == insert_model(it@, seq![rows@[j as int]@]));
                            }
                            steps.push(
                                PlanStep::InsertThenLink {
                                    statement: s,
                                    indirect_table: it.clone_table(),
                                    linker_table: lt.clone_table(),
                                },
                            );
                            proof {
                                assert(steps_view(steps@) =~= (pre + link_new_steps(
                                    *it,
                                    *lt,
                                    rows@,
                                    j as int,
                                )).push(
                                    StepModel::InsertThenLink {
                                        statement: sm,
                                        indirect_table: it@,
                                        linker_table: lt@,
                                    },
                                ));
                                assert((pre + link_new_steps(*it, *lt, rows@, j as int)).push(
                                    StepModel::InsertThenLink {
                                        statement: sm,
                                        indirect_table: it@,
                                        linker_table: lt@,
                                    },
                                ) =~= pre + link_new_steps(*it, *lt, rows@, j as int + 1));
                                assert(steps_view(steps@) == pre + link_new_steps(
                                    *it,
                                    *lt,
                                    rows@,
                                    j as int + 1,
                                ));
                            }
                        },
                        Err(e) => {
                            proof {
                                assert(!insert_ok(it@, seq![rows@[j as int]@]));
                                assert(!indirect_entry_ok(
                                    tables@,
                                    main_table@,
                                    main_record@,
                                    iname,
                                    vname,
                                    eaction,
                                    erows,
                                ));
                                assert(!indirect_ok(tables@, main_table@, main_record@, entries@));
                                lemma_indirect_pinned_at(
                                    tables@,
                                    main_table@,
                                    main_record@,
                                    entries@,
                                    k as int,
                                    e,
                                );
                            }
                            return Err(e);
                        },
                    }
                    j += 1;
                }
                proof {
                    assert(indirect_entry_steps(
                        tables@,
                        main_table@,
                        main_record@,
                        iname,
                        vname,
                        eaction,
                        erows,
                    ) == link_new_steps(*it, *lt, rows@, nr as int));
                    assert(indirect_steps_prefix(
                        tables@,
                        main_table@,
                        main_record@,
                        entries@,
                        k as int + 1,
                    ) == indirect_steps_prefix(
                        tables@,
                        main_table@,
                        main_record@,
                        entries@,
                        k as int,
                    ) + indirect_entry_steps(
                        tables@,
                        main_table@,
                        main_record@,
                        iname,
                        vname,
                        eaction,
                        erows,
                    ));
                    vstd::seq_lib::lemma_concat_associative(
                        steps_view(old(steps)@),
                        indirect_steps_prefix(
                            tables@,
                            main_table@,
                            main_record@,
                            entries@,
                            k as int,
                        ),
                        link_new_steps(*it, *lt, rows@, nr as int),
                    );
                    assert(steps_view(steps@) == steps_view(old(steps)@) + indirect_steps_prefix(
                        tables@,
                        main_table@,
                        main_record@,
                        entries@,
                        k as int + 1,
                    ));
                }
            },
            RecordAction::LinkExisting => {
                let nr = rows.len();
                let mut j: usize = 0;
                proof {
                    assert(steps_view(steps@) =~= pre + link_existing_steps(
                        *lt,
                        main_table@,
                        *it,
                        main_record@,
                        rows@,
                        0,
                    ));
                }
                while j < nr
                    invariant
                        nr == rows@.len(),
                        j <= nr,
                        n == entries@.len(),
                        k < n,
                        rows@ == entries@[k as int].3@,
                        erows == rows@,
                        iname == entries@[k as int].0@,
                        vname == entries@[k as int].1@,
                        eaction == entries@[k as int].2,
                        eaction is LinkExisting,
                        forall|q: int|
                            0 <= q < k ==> indirect_entry_ok(
                                tables@,
                                main_table@,
                                main_record@,
                                (#[trigger] entries@[q]).0@,
                                entries@[q].1@,
                                entries@[q].2,
                                entries@[q].3@,
                            ),
                        spec_find_table(tables@, iname) == Some(*it),
                        spec_find_table(tables@, vname) == Some(*lt),
                        pre == steps_view(old(steps)@) + indirect_steps_prefix(
                            tables@,
                            main_table@,
                            main_record@,
                            entries@,
                            k as int,
                        ),
                        steps_view(steps@) == pre + link_existing_steps(
                            *lt,
                            main_table@,
                            *it,
                            main_record@,
                            rows@,
                            j as int,
                        ),
                        forall|q: int|
                            0 <= q < j ==> create_linker_ok(
                                lt@,
                                main_table@,
                                it@,
                                main_record@,
                                (#[trigger] rows@[q])@,
                            ) && linker_ok(
                                lt@,
                                indirect_linker_content(
                                    lt@,
                                    main_table@,
                                    it@,
                                    main_record@,
                                    rows@[q]@,
                                ),
                            ),
                    decreases nr - j,
                {
                    let linker = match create_linker_record(
                        main_table,
                        main_record,
                        lt,
                        it,
                        &rows[j],
                    ) {
                        Ok(rec) => rec,
                        Err(e) => {
                            proof {
                                assert(!create_linker_ok(
                                    lt@,
                                    main_table@,
                                    it@,
                                    main_record@,
                                    rows@[j as int]@,
                                ));
                                assert(!indirect_entry_ok(
                                    tables@,
                                    main_table@,
                                    main_record@,
                                    iname,
                                    vname,
                                    eaction,
                                    erows,
                                ));
                                assert(!indirect_ok(tables@, main_table@, main_record@, entries@));
                                lemma_indirect_pinned_at(
                                    tables@,
                                    main_table@,
                                    main_record@,
                                    entries@,
                                    k as int,
                                    e,
                                );
                            }
                            return Err(e);
                        },
                    };
                    proof {
                        assert(linker@ == indirect_linker_content(
                            lt@,
                            main_table@,
                            it@,
                            main_record@,
                            rows@[j as int]@,
                        ));
                    }
                    match linker_insert_statement(lt, &linker) {
                        Ok(s) => {
                            let ghost sm = s@;
                            steps.push(PlanStep::Exec(s));
                            proof {
                                assert(steps_view(steps@) =~= (pre + link_existing_steps(
                                    *lt,
                                    main_table@,
                                    *it,
                                    main_record@,
                                    rows@,
                                    j as int,
                                )).push(StepModel::Exec(sm)));
                                assert((pre + link_existing_steps(
                                    *lt,
                                    main_table@,
                                    *it,
                                    main_record@,
                                    rows@,
                                    j as int,
                                )).push(StepModel::Exec(sm)) =~= pre + link_existing_steps(
                                    *lt,
                                    main_table@,
                                    *it,
                                    main_record@,
                                    rows@,
                                    j as int + 1,
                                ));
                                assert(steps_view(steps@) == pre + link_existing_steps(
                                    *lt,
                                    main_table@,
                                    *it,
                                    main_record@,
                                    rows@,
                                    j as int + 1,
                                ));
                            }
                        },
                        Err(e) => {
                            proof {
                                assert(!linker_ok(
                                    lt@,
                                    indirect_linker_content(
                                        lt@,
                                        main_table@,
                                        it@,
                                        main_record@,
                                        rows@[j as int]@,
                                    ),
                                ));
                                assert(!indirect_entry_ok(
                                    tables@,
                                    main_table@,
                                    main_record@,
                                    iname,
                                    vname,
                                    eaction,
                                    erows,
                                ));
                                assert(!indirect_ok(tables@, main_table@, main_record@, entries@));
                                lemma_indirect_pinned_at(
                                    tables@,
                                    main_table@,
                                    main_record@,
                                    entries@,
                                    k as int,
                                    e,
                                );
                            }
                            return Err(e);
                        },
                    }
                    j += 1;
                }
                proof {
                    assert(indirect_entry_steps(
                        tables@,
                        main_table@,
                        main_record@,
                        iname,
                        vname,
                        eaction,
                        erows,
                    ) == link_existing_steps(
                        *lt,
                        main_table@,
                        *it,
                        main_record@,
                        rows@,
                        nr as int,
                    ));
                    assert(indirect_steps_prefix(
                        tables@,
                        main_table@,
                        main_record@,
                        entries@,
                        k as int + 1,
                    ) == indirect_steps_prefix(
                        tables@,
                        main_table@,
                        main_record@,
                        entries@,
                        k as int,
                    ) + indirect_entry_steps(
                        tables@,
                        main_table@,
                        main_record@,
                        iname,
                        vname,
                        eaction,
                        erows,
                    ));
                    vstd::seq_lib::lemma_concat_associative(
                        steps_view(old(steps)@),
                        indirect_steps_prefix(
                            tables@,
                            main_table@,
                            main_record@,
                            entries@,
                            k as int,
                        ),
                        link_existing_steps(*lt, main_table@, *it, main_record@, rows@, nr as int),
                    );
                    assert(steps_view(steps@) == steps_view(old(steps)@) + indirect_steps_prefix(
                        tables@,
                        main_table@,
                        main_record@,
                        entries@,
                        k as int + 1,
                    ));
                }
            },
            _ => {
                let err = IntelError::UnsupportedAction { action: entries[k].2 };
                proof {
                    assert(!indirect_entry_ok(
                        tables@,
                        main_table@,
                        main_record@,
                        iname,
                        vname,
                        eaction,
                        erows,
                    ));
                    assert(!valid_indirect_action(eaction));
                    lemma_indirect_pinned_at(
                        tables@,
                        main_table@,
                        main_record@,
                        entries@,
                        k as int,
                        err,
                    );
                }
                return Err(err);
            },
        }
        k += 1;
    }
    Ok(())
}


/// A failing dependent plan classifies its error by the first section
/// entry that cannot be planned: a has-many entry once every one-one entry
/// passed, an indirect entry once both earlier sections passed. One-one
/// and row-level failures are classified by the builders and the resolver.
pub open spec fn plan_errors_pinned(
    tables: Seq<Table>,
    window: Window,
    mt: TableModel,
    mrec: Seq<(Seq<char>, Value)>,
    cs: RecordChangeset,
    e: IntelError,
) -> bool {
    &&& (one_ones_ok(tables, mt, mrec, cs.one_ones@) ==> has_many_errors_pinned(
        tables,
        window,
        cs.has_many@,
        e,
    ))
    &&& (one_ones_ok(tables, mt, mrec, cs.one_ones@) && has_many_ok(tables, window, cs.has_many@)
        ==> indirect_errors_pinned(tables, mt, mrec, cs.indirect@, e))
}

/// Builds the dependent plan for a changeset once the updated main record
/// is known: one-one upserts, then has-many operations, then indirect
/// operations, in the order the changeset gives them.
pub fn plan_after_main(
    tables: &Vec<Table>,
    window: &Window,
    main_table: &Table,
    main_record: &Record,
    changeset: &RecordChangeset,
) -> (r: Result<Vec<PlanStep>, IntelError>)
    ensures
        r is Ok <==> plan_ok(tables@, *window, main_table@, main_record@, *changeset),
        r matches Ok(steps) ==> steps_view(steps@) == plan_model(
            tables@,
            main_table@,
            main_record@,
            *changeset,
        ),
        r matches Err(e) ==> plan_errors_pinned(
            tables@,
            *window,
            main_table@,
            main_record@,
            *changeset,
            e,
        ),
{
    let mut steps: Vec<PlanStep> = Vec::new();
    let ghost s0 = steps_view(steps@);
    match plan_one_ones(tables, main_table, main_record, &changeset.one_ones, &mut steps) {
        Ok(()) => {},
        Err(e) => {
            proof {
                assert(!one_ones_ok(tables@, main_table@, main_record@, changeset.one_ones@));
            }
            return Err(e);
        },
    }
    let ghost s1 = steps_view(steps@);
    match plan_has_many(tables, window, &changeset.has_many, &mut steps) {
        Ok(()) => {},
        Err(e) => {
            proof {
                assert(!has_many_ok(tables@, *window, changeset.has_many@));
            }
            return Err(e);
        },
    }
    let ghost s2 = steps_view(steps@);
    match plan_indirect(tables, main_table, main_record, &changeset.indirect, &mut steps) {
        Ok(()) => {},
        Err(e) => {
            proof {
                assert forall|j: int|
                    0 <= j < changeset.has_many@.len() && has_many_ok_upto(
                        tables@,
                        *window,
                        changeset.has_many@,
                        j,
                    ) && !has_many_entry_ok(
                        tables@,
                        *window,
                        (#[trigger] changeset.has_many@[j]).0@,
                        changeset.has_many@[j].1,
                        changeset.has_many@[j].2@,
                    ) implies has_many_entry_rejection(
                    tables@,
                    *window,
                    changeset.has_many@[j].0@,
                    changeset.has_many@[j].1,
                    e,
                ) by {
                    assert(has_many_entry_ok(
                        tables@,
                        *window,
                        (changeset.has_many@[j]).0@,
                        changeset.has_many@[j].1,
                        changeset.has_many@[j].2@,
                    ));
                }
            }
            return Err(e);
        },
    }
    proof {
        let oo = one_one_steps_prefix(
            tables@,
            main_table@,
            main_record@,
            changeset.one_ones@,
            changeset.one_ones@.len() as int,
        );
        let hm = has_many_steps_prefix(
            tables@,
            changeset.has_many@,
            changeset.has_many@.len() as int,
        );
        let ind = indirect_steps_prefix(
            tables@,
            main_table@,
            main_record@,
            changeset.indirect@,
            changeset.indirect@.len() as int,
        );
        assert(s0 =~= Seq::<StepModel>::empty());
        assert(s1 =~= oo);
        assert(s2 =~= oo + hm);
        assert(steps_view(steps@) =~= (oo + hm) + ind);
        vstd::seq_lib::lemma_concat_associative(oo, hm, ind);
        assert(steps_view(steps@) == plan_model(tables@, main_table@, main_record@, *changeset));
    }
    Ok(steps)
}

/// One instruction of a changeset session to its driver.
#[derive(Debug, PartialEq, Eq)]
pub enum SaveStep {
    /// Run this statement against the database and hand back the outcome.
    Execute(Statement),
    /// The changeset is fully persisted.
    Done,
}

/// The database's response to the last executed statement.
#[derive(Debug, PartialEq, Eq)]
pub enum SaveEvent {
    /// The rows the statement returned.
    Rows(Vec<Record>),
    /// The statement failed; the session aborts.
    Failed(DbError),
}

/// The progress of a changeset session.
pub enum SaverState {
    /// No statement was handed out yet.
    Start,
    /// The main-record statement is executing; its returned row is awaited.
    AwaitMain,
    /// The dependent plan is executing: the steps still to run, and, when a
    /// `LinkNew` indirect insert is executing, the indirect and linker
    /// tables its returned row will be linked through.
    Running { main_record: Record, remaining: Vec<PlanStep>, pending: Option<(Table, Table)> },
    /// The session finished or failed; no further statement follows.
    Closed,
}

/// What a session step must yield when the rest of the work is `plan` and
/// the updated main record is `mr`: `Done` on an empty plan, else the head
/// statement, with the tail retained and, for an insert-then-link step, the
/// two tables retained for the linking that follows.
pub open spec fn emits_from(
    post: ChangesetSaver,
    r: Result<SaveStep, IntelError>,
    mr: Record,
    plan: Seq<StepModel>,
) -> bool {
    if plan.len() == 0 {
        &&& r matches Ok(a) && a is Done
        &&& post.state is Closed
    } else {
        match plan[0] {
            StepModel::Exec(m) => {
                &&& r matches Ok(a) && a matches SaveStep::Execute(s) && s@ == m
                &&& post.state matches SaverState::Running { main_record, remaining, pending }
                    && main_record == mr && steps_view(remaining@) == plan.skip(1)
                    && pending is None
            },
            StepModel::InsertThenLink { statement: m, indirect_table: itm, linker_table: ltm } => {
                &&& r matches Ok(a) && a matches SaveStep::Execute(s) && s@ == m
                &&& post.state matches SaverState::Running { main_record, remaining, pending }
                    && main_record == mr && steps_view(remaining@) == plan.skip(1) && (
                pending matches Some((it, lt)) && it@ == itm && lt@ == ltm)
            },
        }
    }
}

/// A changeset session: the step machine that persists one changeset.
///
/// The driver calls [`ChangesetSaver::step`] with `None` first, and then
/// once per instruction with the database's response to it, until the
/// session answers `Done` or an error. The main record persists before any
/// dependent; an indirect-table insert always precedes its linker-table
/// insert; rows are processed in the order the changeset gives them.
pub struct ChangesetSaver {
    pub tables: Vec<Table>,
    pub window: Window,
    pub main_table: Table,
    pub changeset: RecordChangeset,
    /// Table and kind of the last statement handed out, for error context.
    pub issued: Option<(String, StatementKind)>,
    pub state: SaverState,
}

impl ChangesetSaver {
    /// Opens a session for one changeset against the loaded tables.
    pub fn new(
        tables: Vec<Table>,
        window: Window,
        main_table: Table,
        changeset: RecordChangeset,
    ) -> (r: ChangesetSaver)
        ensures
            r.tables == tables,
            r.window == window,
            r.main_table == main_table,
            r.changeset == changeset,
            r.state is Start,
    {
        ChangesetSaver { tables, window, main_table, changeset, issued: None, state: SaverState::Start }
    }

    /// Advances the session: hands in the response to the last instruction
    /// (`None` on the first call) and receives the next instruction.
    ///
    /// Any error closes the session; already-executed statements stay
    /// committed, nothing is retried.
    pub fn step(&mut self, response: Option<SaveEvent>) -> (r: Result<SaveStep, IntelError>)
        ensures
            final (self).tables == old(self).tables,
            final (self).window == old(self).window,
            final (self).main_table == old(self).main_table,
            final (self).changeset == old(self).changeset,
            r matches Ok(SaveStep::Execute(s)) ==> (final (self).issued matches Some(p) && p.0@
                == s@.table() && p.1 == s@.kind()),
            old(self).state is Closed ==> (r matches Err(e) && e == IntelError::SessionClosed
                && final (self).state is Closed),
            old(self).state is Start && response is Some ==> (r matches Err(e) && e
                == IntelError::UnexpectedResponse && final (self).state is Closed),
            old(self).state is Start && response is None && main_stmt_ok(
                old(self).main_table@,
                old(self).changeset,
            ) ==> (r matches Ok(a) && a matches SaveStep::Execute(s) && s@ == main_stmt_model(
                old(self).main_table@,
                old(self).changeset,
            ) && final (self).state is AwaitMain),
            old(self).state is Start && response is None && !main_stmt_ok(
                old(self).main_table@,
                old(self).changeset,
            ) ==> (r is Err && final (self).state is Closed),
            old(self).state is Start && response is None && !(old(self).changeset.action
                is CreateNew || old(self).changeset.action is Edited) ==> (r matches Err(e) && e
                == IntelError::UnsupportedAction { action: old(self).changeset.action }),
            old(self).state is AwaitMain ==> match response {
                None => r matches Err(e) && e == IntelError::UnexpectedResponse && final (
                self).state is Closed,
                Some(SaveEvent::Failed(db)) => r matches Err(e) && e matches
                    IntelError::Execution {
                    table: t,
                    kind: k2,
                    error: err,
                } && err == db && (old(self).issued matches Some(p) ==> t@ == p.0@ && k2 == p.1)
                    && final (self).state is Closed,
                Some(SaveEvent::Rows(rows)) => {
                    if rows@.len() == 0 {
                        r matches Err(e) && (e matches IntelError::NoRowReturned { table: t } && t@
                            == old(self).main_table@.name) && final (self).state is Closed
                    } else if plan_ok(
                        old(self).tables@,
                        old(self).window,
                        old(self).main_table@,
                        rows@[0]@,
                        old(self).changeset,
                    ) {
                        emits_from(
                            *final (self),
                            r,
                            rows@[0],
                            plan_model(
                                old(self).tables@,
                                old(self).main_table@,
                                rows@[0]@,
                                old(self).changeset,
                            ),
                        )
                    } else {
                        r matches Err(e) && plan_errors_pinned(
                            old(self).tables@,
                            old(self).window,
                            old(self).main_table@,
                            rows@[0]@,
                            old(self).changeset,
                            e,
                        ) && final (self).state is Closed
                    }
                },
            },
            old(self).state matches SaverState::Running {
                main_record: mr,
                remaining: rem,
                pending: None,
            } ==> match response {
                None => r matches Err(e) && e == IntelError::UnexpectedResponse && final (
                self).state is Closed,
                Some(SaveEvent::Failed(db)) => r matches Err(e) && e matches
                    IntelError::Execution {
                    table: t,
                    kind: k2,
                    error: err,
                } && err == db && (old(self).issued matches Some(p) ==> t@ == p.0@ && k2 == p.1)
                    && final (self).state is Closed,
                Some(SaveEvent::Rows(_)) => emits_from(*final (self), r, mr, steps_view(rem@)),
            },
            old(self).state matches SaverState::Running {
                main_record: mr,
                remaining: rem,
                pending: Some((it, lt)),
            } ==> match response {
                None => r matches Err(e) && e == IntelError::UnexpectedResponse && final (
                self).state is Closed,
                Some(SaveEvent::Failed(db)) => r matches Err(e) && e matches
                    IntelError::Execution {
                    table: t,
                    kind: k2,
                    error: err,
                } && err == db && (old(self).issued matches Some(p) ==> t@ == p.0@ && k2 == p.1)
                    && final (self).state is Closed,
                Some(SaveEvent::Rows(rows)) => {
                    if rows@.len() == 0 {
                        r matches Err(e) && (e matches IntelError::NoRowReturned { table: t } && t@
                            == it@.name) && final (self).state is Closed
                    } else {
                        let content = indirect_linker_content(
                            lt@,
                            old(self).main_table@,
                            it@,
                            mr@,
                            rows@[0]@,
                        );
                        if create_linker_ok(lt@, old(self).main_table@, it@, mr@, rows@[0]@)
                            && linker_ok(lt@, content) {
                            &&& r matches Ok(a) && a matches SaveStep::Execute(s) && s@
                                == linker_insert_model(lt@, content)
                            &&& final (self).state matches SaverState::Running {
                                main_record: mr2,
                                remaining: rem2,
                                pending: p2,
                            } && mr2 == mr && rem2 == rem && p2 is None
                        } else {
                            r is Err && final (self).state is Closed
                        }
                    }
                },
            },
    {
        let mut st = SaverState::Closed;
        core::mem::swap(&mut st, &mut self.state);
        match st {
            SaverState::Start => {
                if response.is_some() {
                    return Err(IntelError::UnexpectedResponse);
                }
                let stmt = match self.changeset.action {
                    RecordAction::CreateNew => {
                        let mut one: Vec<Record> = Vec::new();
                        one.push(self.changeset.record.clone_record());
                        proof {
                            assert(views_of(one@) =~= seq![old(self).changeset.record@]);
                        }
                        match insert_statement(&self.main_table, &one) {
                            Ok(s) => s,
                            Err(e) => {
                                return Err(e);
                            },
                        }
                    },
                    RecordAction::Edited => {
                        match update_statement(&self.main_table, &self.changeset.record) {
                            Ok(s) => s,
                            Err(e) => {
                                return Err(e);
                            },
                        }
                    },
                    _ => {
                        return Err(IntelError::UnsupportedAction { action: self.changeset.action });
                    },
                };
                self.issued = Some((stmt.table_name().clone(), stmt.kind()));
                self.state = SaverState::AwaitMain;
                Ok(SaveStep::Execute(stmt))
            },
            SaverState::AwaitMain => {
                match response {
                    None => Err(IntelError::UnexpectedResponse),
                    Some(SaveEvent::Failed(db)) => Err(self.execution_error(db)),
                    Some(SaveEvent::Rows(mut rows)) => {
                        if rows.len() == 0 {
                            return Err(
                                IntelError::NoRowReturned { table: self.main_table.name.clone() },
                            );
                        }
                        let main_record = rows.remove(0);
                        let steps = match plan_after_main(
                            &self.tables,
                            &self.window,
                            &self.main_table,
                            &main_record,
                            &self.changeset,
                        ) {
                            Ok(steps) => steps,
                            Err(e) => {
                                return Err(e);
                            },
                        };
                        self.advance(main_record, steps)
                    },
                }
            },
            SaverState::Running { main_record, remaining, pending } => {
                match pending {
                    None => {
                        match response {
                            None => Err(IntelError::UnexpectedResponse),
                            Some(SaveEvent::Failed(db)) => Err(self.execution_error(db)),
                            Some(SaveEvent::Rows(_)) => self.advance(main_record, remaining),
                        }
                    },
                    Some((indirect_table, linker_table)) => {
                        match response {
                            None => Err(IntelError::UnexpectedResponse),
                            Some(SaveEvent::Failed(db)) => Err(self.execution_error(db)),
                            Some(SaveEvent::Rows(mut rows)) => {
                                if rows.len() == 0 {
                                    return Err(
                                        IntelError::NoRowReturned {
                                            table: indirect_table.name.clone(),
                                        },
                                    );
                                }
                                let returned = rows.remove(0);
                                let linker = match create_linker_record(
                                    &self.main_table,
                                    &main_record,
                                    &linker_table,
                                    &indirect_table,
                                    &returned,
                                ) {
                                    Ok(rec) => rec,
                                    Err(e) => {
                                        return Err(e);
                                    },
                                };
                                let stmt = match linker_insert_statement(&linker_table, &linker) {
                                    Ok(s) => s,
                                    Err(e) => {
                                        return Err(e);
                                    },
                                };
                                self.issued = Some((stmt.table_name().clone(), stmt.kind()));
                                self.state = SaverState::Running {
                                    main_record,
                                    remaining,
                                    pending: None,
                                };
                                Ok(SaveStep::Execute(stmt))
                            },
                        }
                    },
                }
            },
            SaverState::Closed => Err(IntelError::SessionClosed),
        }
    }

    /// Wraps a database failure with the table and kind of the statement it
    /// answered — the one last handed out — and carries the failure
    /// verbatim.
    fn execution_error(&self, db: DbError) -> (r: IntelError)
        ensures
            r matches IntelError::Execution { table: t, kind: k, error: err } && err == db && (
            self.issued matches Some(p) ==> t@ == p.0@ && k == p.1),
    {
        match &self.issued {
            Some((table, kind)) => IntelError::Execution {
                table: table.clone(),
                kind: *kind,
                error: db,
            },
            None => IntelError::Execution {
                table: String::new(),
                kind: StatementKind::Insert,
                error: db,
            },
        }
    }

    /// Hands out the head of the remaining plan, or `Done` on an empty one.
    fn advance(&mut self, main_record: Record, remaining: Vec<PlanStep>) -> (r: Result<
        SaveStep,
        IntelError,
    >)
        ensures
            final (self).tables == old(self).tables,
            final (self).window == old(self).window,
            final (self).main_table == old(self).main_table,
            final (self).changeset == old(self).changeset,
            r matches Ok(SaveStep::Execute(s)) ==> (final (self).issued matches Some(p) && p.0@
                == s@.table() && p.1 == s@.kind()),
            emits_from(*final (self), r, main_record, steps_view(remaining@)),
    {
        let mut remaining = remaining;
        if remaining.len() == 0 {
            self.state = SaverState::Closed;
            return Ok(SaveStep::Done);
        }
        let ghost rem0 = remaining@;
        let head = remaining.remove(0);
        proof {
            assert(rem0.remove(0) =~= rem0.skip(1));
            assert(steps_view(remaining@) =~= steps_view(rem0).skip(1));
        }
        match head {
            PlanStep::Exec(stmt) => {
                self.issued = Some((stmt.table_name().clone(), stmt.kind()));
                self.state = SaverState::Running { main_record, remaining, pending: None };
                Ok(SaveStep::Execute(stmt))
            },
            PlanStep::InsertThenLink { statement, indirect_table, linker_table } => {
                self.issued = Some((statement.table_name().clone(), statement.kind()));
                self.state = SaverState::Running {
                    main_record,
                    remaining,
                    pending: Some((indirect_table, linker_table)),
                };
                Ok(SaveStep::Execute(statement))
            },
        }
    }
}


/// The first `j` update statements of a bulk-update batch against `t`.
pub open spec fn update_stmts(t: Table, rows: Seq<Record>, j: int) -> Seq<StatementModel> {
    Seq::new(j as nat, |q: int| update_model(t@, rows[q]@))
}

/// Whether the flat bulk save can be built: both tables loaded, the insert
/// batch insertable (or empty), and every update row fully bound.
pub open spec fn container_ok(tables: Seq<Table>, c: SaveContainer) -> bool {
    &&& spec_find_table(tables, c.for_insert.0@) is Some
    &&& spec_find_table(tables, c.for_update.0@) is Some
    &&& (c.for_insert.1@.len() == 0 || insert_ok(
        spec_find_table(tables, c.for_insert.0@)->0@,
        views_of(c.for_insert.1@),
    ))
    &&& forall|k: int|
        0 <= k < c.for_update.1@.len() ==> covers_all(
            spec_find_table(tables, c.for_update.0@)->0@,
            (#[trigger] c.for_update.1@[k])@,
        )
}

/// The statements of the flat bulk save: one batch insert (when the insert
/// batch is not empty), then one update per update row, in row order.
pub open spec fn container_model(tables: Seq<Table>, c: SaveContainer) -> Seq<StatementModel> {
    let ti = spec_find_table(tables, c.for_insert.0@)->0;
    let tu = spec_find_table(tables, c.for_update.0@)->0;
    (if c.for_insert.1@.len() > 0 {
        seq![insert_model(ti@, views_of(c.for_insert.1@))]
    } else {
        Seq::empty()
    }) + update_stmts(tu, c.for_update.1@, c.for_update.1@.len() as int)
}

/// Builds the statements of the flat bulk case: rows to insert and rows to
/// update against single tables, with no relationship traversal.
pub fn save_container(tables: &Vec<Table>, container: &SaveContainer) -> (r: Result<
    Vec<Statement>,
    IntelError,
>)
    ensures
        r is Ok <==> container_ok(tables@, *container),
        r matches Ok(stmts) ==> stmts_view(stmts@) == container_model(tables@, *container),
{
    let ti = match get_table(tables, container.for_insert.0.as_str()) {
        Some(t) => t,
        None => {
            return Err(IntelError::TableNotFound { table: container.for_insert.0.clone() });
        },
    };
    let tu = match get_table(tables, container.for_update.0.as_str()) {
        Some(t) => t,
        None => {
            return Err(IntelError::TableNotFound { table: container.for_update.0.clone() });
        },
    };
    proof {
        assert(spec_find_table(tables@, container.for_insert.0@) == Some(*ti));
        assert(spec_find_table(tables@, container.for_update.0@) == Some(*tu));
    }
    let mut stmts: Vec<Statement> = Vec::new();
    if container.for_insert.1.len() > 0 {
        match insert_statement(ti, &container.for_insert.1) {
            Ok(s) => {
                stmts.push(s);
            },
            Err(e) => {
                return Err(e);
            },
        }
    }
    let ghost base = stmts_view(stmts@);
    proof {
        assert(base =~= (if container.for_insert.1@.len() > 0 {
            seq![insert_model(ti@, views_of(container.for_insert.1@))]
        } else {
            Seq::<StatementModel>::empty()
        }));
        assert(stmts_view(stmts@) =~= base + update_stmts(*tu, container.for_update.1@, 0));
    }
    let rows = &container.for_update.1;
    let nr = rows.len();
    let mut j: usize = 0;
    while j < nr
        invariant
            nr == rows@.len(),
            rows@ == container.for_update.1@,
            spec_find_table(tables@, container.for_update.0@) == Some(*tu),
            j <= nr,
            base == (if container.for_insert.1@.len() > 0 {
                seq![
                    insert_model(
                        (spec_find_table(tables@, container.for_insert.0@)->0)@,
                        views_of(container.for_insert.1@),
                    ),
                ]
            } else {
                Seq::<StatementModel>::empty()
            }),
            container.for_insert.1@.len() > 0 ==> insert_ok(
                (spec_find_table(tables@, container.for_insert.0@)->0)@,
                views_of(container.for_insert.1@),
            ),
            spec_find_table(tables@, container.for_insert.0@) is Some,
            stmts_view(stmts@) == base + update_stmts(*tu, rows@, j as int),
            forall|q: int| 0 <= q < j ==> covers_all(tu@, (#[trigger] rows@[q])@),
        decreases nr - j,
    {
        match update_statement(tu, &rows[j]) {
            Ok(s) => {
                let ghost sm = s@;
                stmts.push(s);
                proof {
                    assert(stmts_view(stmts@) =~= (base + update_stmts(*tu, rows@, j as int)).push(
                        sm,
                    ));
                    assert((base + update_stmts(*tu, rows@, j as int)).push(sm) =~= base
                        + update_stmts(*tu, rows@, j as int + 1));
                    assert(stmts_view(stmts@) == base + update_stmts(*tu, rows@, j as int + 1));
                }
            },
            Err(e) => {
                proof {
                    assert(!covers_all(
                        (spec_find_table(tables@, container.for_update.0@)->0)@,
                        rows@[j as int]@,
                    ));
                    assert(!container_ok(tables@, *container));
                }
                return Err(e);
            },
        }
        j += 1;
    }
    proof {
        assert(stmts_view(stmts@) == container_model(tables@, *container));
    }
    Ok(stmts)
}

/// Whether one textual record id reads as a value of the given type: a
/// decimal integer, `true` or `false`, or (for a text column) any text.
pub open spec fn id_value_ok(ty: crate::schema::SqlType, s: Seq<char>) -> bool {
    match ty {
        crate::schema::SqlType::Int => crate::text::int_text_ok(s),
        crate::schema::SqlType::Bool => s == "true"@ || s == "false"@,
        crate::schema::SqlType::Text => true,
    }
}

/// The value a well-formed textual record id denotes.
pub open spec fn id_value_matches(ty: crate::schema::SqlType, s: Seq<char>, v: Value) -> bool {
    match ty {
        crate::schema::SqlType::Int => v == Value::Int(crate::text::int_text_val(s) as i64),
        crate::schema::SqlType::Bool => v == Value::Bool(s == "true"@),
        crate::schema::SqlType::Text => v matches Value::Text(t) && t@ == s,
    }
}

/// Reads one textual record id as a value of the primary-key column's type.
fn parse_record_id(rid: &String, ty: crate::schema::SqlType) -> (r: Result<Value, IntelError>)
    ensures
        r is Ok <==> id_value_ok(ty, rid@),
        r matches Ok(v) ==> id_value_matches(ty, rid@, v),
        r matches Err(e) ==> (e matches IntelError::InvalidRecordId { record_id } && record_id@
            == rid@),
{
    match ty {
        crate::schema::SqlType::Int => {
            match crate::text::parse_i64(rid.as_str()) {
                Some(v) => Ok(Value::Int(v)),
                None => Err(IntelError::InvalidRecordId { record_id: rid.clone() }),
            }
        },
        crate::schema::SqlType::Bool => {
            if crate::text::str_eq(rid.as_str(), "true") {
                Ok(Value::Bool(true))
            } else if crate::text::str_eq(rid.as_str(), "false") {
                proof {
                    reveal_strlit("true");
                    reveal_strlit("false");
                    assert(rid@ != "true"@);
                }
                Ok(Value::Bool(false))
            } else {
                Err(IntelError::InvalidRecordId { record_id: rid.clone() })
            }
        },
        crate::schema::SqlType::Text => Ok(Value::Text(rid.clone())),
    }
}

/// Builds the bulk delete of the records with the given textual record ids,
/// keyed by the table's single primary-key column. A table with no primary
/// key or a composite one is refused, as is an id that does not read as a
/// value of the key column's type.
pub fn delete_records(main_table: &Table, record_ids: &Vec<String>) -> (r: Result<
    Statement,
    IntelError,
>)
    ensures
        r is Ok <==> (main_table@.primary_columns().len() == 1 && forall|k: int|
            0 <= k < record_ids@.len() ==> id_value_ok(
                main_table@.primary_columns()[0].sql_type,
                (#[trigger] record_ids@[k])@,
            )),
        r matches Ok(s) ==> (s@ matches StatementModel::DeleteIn {
            table,
            key_column,
            key_values,
        } && table == main_table@.name && key_column == main_table@.primary_columns()[0].name@
            && key_values.len() == record_ids@.len() && forall|k: int|
            0 <= k < key_values.len() ==> id_value_matches(
                main_table@.primary_columns()[0].sql_type,
                record_ids@[k]@,
                #[trigger] key_values[k],
            )),
        main_table@.primary_columns().len() == 0 ==> (r matches Err(e) && e matches
            IntelError::NoPrimaryKey { table: t } && t@ == main_table@.name),
        main_table@.primary_columns().len() > 1 ==> (r matches Err(e) && e matches
            IntelError::CompositePrimaryKey { table: t } && t@ == main_table@.name),
{
    let ghost cs = main_table@.columns;
    let ghost pp = primary_pred();
    let ncols = main_table.columns.len();
    let mut found: Option<usize> = None;
    let mut i: usize = 0;
    while i < ncols
        invariant
            ncols == cs.len(),
            i <= ncols,
            cs == main_table@.columns,
            pp == primary_pred(),
            match found {
                None => cs.take(i as int).filter(pp).len() == 0,
                Some(j) => j < i && cs.take(i as int).filter(pp) =~= seq![cs[j as int]],
            },
        decreases ncols - i,
    {
        proof {
            assert(cs.take(i as int + 1) =~= cs.take(i as int).push(cs[i as int]));
            cs.take(i as int).lemma_filter_push(cs[i as int], pp);
        }
        if main_table.columns[i].is_primary {
            if found.is_some() {
                proof {
                    cs.lemma_filter_take_len(pp, i as int + 1);
                }
                return Err(IntelError::CompositePrimaryKey { table: main_table.name.clone() });
            }
            found = Some(i);
        }
        i += 1;
    }
    proof {
        assert(cs.take(ncols as int) =~= cs);
    }
    let pk = match found {
        Some(j) => j,
        None => {
            return Err(IntelError::NoPrimaryKey { table: main_table.name.clone() });
        },
    };
    proof {
        assert(main_table@.primary_columns() =~= seq![cs[pk as int]]);
    }
    let ghost ty = main_table@.primary_columns()[0].sql_type;
    let mut ids: Vec<Value> = Vec::new();
    let nids = record_ids.len();
    let mut k: usize = 0;
    while k < nids
        invariant
            nids == record_ids@.len(),
            k <= nids,
            main_table@.primary_columns().len() == 1,
            ty == main_table@.primary_columns()[0].sql_type,
            pk < main_table.columns@.len(),
            main_table.columns@[pk as int].sql_type == ty,
            ids@.len() == k,
            forall|q: int|
                0 <= q < k ==> id_value_ok(ty, (#[trigger] record_ids@[q])@) && id_value_matches(
                    ty,
                    record_ids@[q]@,
                    ids@[q],
                ),
        decreases nids - k,
    {
        match parse_record_id(&record_ids[k], main_table.columns[pk].sql_type) {
            Ok(v) => {
                ids.push(v);
            },
            Err(e) => {
                proof {
                    assert(!id_value_ok(ty, record_ids@[k as int]@));
                }
                return Err(e);
            },
        }
        k += 1;
    }
    match crate::builder::delete_in_statement(main_table, &ids) {
        Ok(s) => Ok(s),
        Err(e) => Err(e),
    }
}

} // verus!
