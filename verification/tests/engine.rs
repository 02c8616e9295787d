//! End-to-end and unit tests of the changeset persistence engine.

use diwata_intel::builder::{
    delete_in_statement, delete_statement, insert_statement, update_statement, upsert_statement,
};
use diwata_intel::changeset::{RecordAction, RecordChangeset, SaveContainer, Tab, Window};
use diwata_intel::data_modify::{delete_records, save_container, ChangesetSaver, SaveEvent, SaveStep};
use diwata_intel::error::{DbError, IntelError};
use diwata_intel::record::Record;
use diwata_intel::resolver::{create_linker_record, find_fk_pair};
use diwata_intel::schema::{Column, ForeignKeyPair, SqlType, Table};
use diwata_intel::statement::{Statement, StatementKind};
use diwata_intel::text::parse_i64;
use diwata_intel::value::Value;

fn col(name: &str, ty: SqlType, pk: bool, not_null: bool, gen: bool) -> Column {
    Column {
        name: name.to_string(),
        sql_type: ty,
        is_primary: pk,
        is_not_null: not_null,
        has_generated_default: gen,
    }
}

fn fk(referred_table: &str, local: &str, referred: &str) -> ForeignKeyPair {
    ForeignKeyPair {
        referred_table: referred_table.to_string(),
        local_column: local.to_string(),
        referred_column: referred.to_string(),
    }
}

fn rec(pairs: Vec<(&str, Value)>) -> Record {
    Record { pairs: pairs.into_iter().map(|(n, v)| (n.to_string(), v)).collect() }
}

fn text(s: &str) -> Value {
    Value::Text(s.to_string())
}

fn num(i: i64) -> Value {
    Value::Int(i)
}

fn customers() -> Table {
    Table {
        name: "customers".to_string(),
        columns: vec![
            col("id", SqlType::Int, true, true, true),
            col("name", SqlType::Text, false, false, false),
        ],
        foreign_keys: vec![],
    }
}

fn orders() -> Table {
    Table {
        name: "orders".to_string(),
        columns: vec![
            col("id", SqlType::Int, true, true, true),
            col("customer_id", SqlType::Int, false, false, false),
            col("total", SqlType::Int, false, false, false),
        ],
        foreign_keys: vec![fk("customers", "customer_id", "id")],
    }
}

fn tags() -> Table {
    Table {
        name: "tags".to_string(),
        columns: vec![
            col("id", SqlType::Int, true, true, true),
            col("label", SqlType::Text, false, false, false),
        ],
        foreign_keys: vec![],
    }
}

fn tag_link() -> Table {
    Table {
        name: "tag_link".to_string(),
        columns: vec![
            col("customer_id", SqlType::Int, true, true, false),
            col("tag_id", SqlType::Int, true, true, false),
        ],
        foreign_keys: vec![fk("customers", "customer_id", "id"), fk("tags", "tag_id", "id")],
    }
}

fn all_tables() -> Vec<Table> {
    vec![customers(), orders(), tags(), tag_link()]
}

fn window() -> Window {
    Window {
        one_one_tabs: vec![],
        has_many_tabs: vec![Tab { table_name: "orders".to_string() }],
        indirect_tabs: vec![Tab { table_name: "tags".to_string() }],
    }
}

fn edited_main_changeset() -> RecordChangeset {
    RecordChangeset {
        action: RecordAction::Edited,
        record: rec(vec![("id", num(7)), ("name", text("Acme"))]),
        one_ones: vec![],
        has_many: vec![],
        indirect: vec![],
    }
}

fn execute_step(saver: &mut ChangesetSaver, response: Option<SaveEvent>) -> Statement {
    match saver.step(response) {
        Ok(SaveStep::Execute(s)) => s,
        other => panic!("expected a statement, got {:?}", other),
    }
}

fn expect_done(saver: &mut ChangesetSaver, response: Option<SaveEvent>) {
    match saver.step(response) {
        Ok(SaveStep::Done) => {}
        other => panic!("expected Done, got {:?}", other),
    }
}

#[test]
fn scenario_edited_main_record() {
    let mut saver =
        ChangesetSaver::new(all_tables(), window(), customers(), edited_main_changeset());
    let stmt = execute_step(&mut saver, None);
    assert_eq!(stmt.render(), "UPDATE customers SET name = $1 WHERE id = $2 RETURNING *");
    assert_eq!(stmt.params(), vec![text("Acme"), num(7)]);
    assert_eq!(stmt.kind(), StatementKind::Update);
    let updated = rec(vec![("id", num(7)), ("name", text("Acme"))]);
    expect_done(&mut saver, Some(SaveEvent::Rows(vec![updated])));
}

#[test]
fn scenario_has_many_link_new() {
    let mut changeset = edited_main_changeset();
    changeset.has_many = vec![(
        "orders".to_string(),
        RecordAction::LinkNew,
        vec![rec(vec![("customer_id", num(7)), ("total", num(10))])],
    )];
    let mut saver = ChangesetSaver::new(all_tables(), window(), customers(), changeset);
    let first = execute_step(&mut saver, None);
    assert_eq!(first.kind(), StatementKind::Update);
    let updated = rec(vec![("id", num(7)), ("name", text("Acme"))]);
    let second = execute_step(&mut saver, Some(SaveEvent::Rows(vec![updated])));
    assert_eq!(
        second.render(),
        "INSERT INTO orders (customer_id, total) VALUES ($1, $2) RETURNING *"
    );
    assert_eq!(second.params(), vec![num(7), num(10)]);
    assert_eq!(second.kind(), StatementKind::Insert);
    // no delete or update is issued against the child table
    expect_done(&mut saver, Some(SaveEvent::Rows(vec![])));
}

fn link_existing_changeset() -> RecordChangeset {
    let mut changeset = edited_main_changeset();
    changeset.indirect = vec![(
        "tags".to_string(),
        "tag_link".to_string(),
        RecordAction::LinkExisting,
        vec![rec(vec![("id", num(3))])],
    )];
    changeset
}

fn run_link_existing() -> Vec<(String, Vec<Value>)> {
    let mut saver =
        ChangesetSaver::new(all_tables(), window(), customers(), link_existing_changeset());
    let mut issued = Vec::new();
    let first = execute_step(&mut saver, None);
    issued.push((first.render(), first.params()));
    let updated = rec(vec![("id", num(7)), ("name", text("Acme"))]);
    let second = execute_step(&mut saver, Some(SaveEvent::Rows(vec![updated])));
    issued.push((second.render(), second.params()));
    expect_done(&mut saver, Some(SaveEvent::Rows(vec![])));
    issued
}

#[test]
fn scenario_indirect_link_existing() {
    let issued = run_link_existing();
    assert_eq!(issued.len(), 2);
    // exactly one linker-table insert with (main id, indirect id); the
    // tags table itself is never touched
    assert_eq!(
        issued[1].0,
        "INSERT INTO tag_link (customer_id, tag_id) VALUES ($1, $2) RETURNING *"
    );
    assert_eq!(issued[1].1, vec![num(7), num(3)]);
    assert!(!issued[0].0.contains("tags"));
    assert!(!issued[1].0.contains("INTO tags"));
}

#[test]
fn scenario_indirect_unlink() {
    let mut changeset = edited_main_changeset();
    changeset.indirect = vec![(
        "tags".to_string(),
        "tag_link".to_string(),
        RecordAction::Unlink,
        vec![rec(vec![("id", num(3))])],
    )];
    let mut saver = ChangesetSaver::new(all_tables(), window(), customers(), changeset);
    let first = execute_step(&mut saver, None);
    assert_eq!(first.kind(), StatementKind::Update);
    let updated = rec(vec![("id", num(7)), ("name", text("Acme"))]);
    let second = execute_step(&mut saver, Some(SaveEvent::Rows(vec![updated])));
    assert_eq!(
        second.render(),
        "DELETE FROM tag_link WHERE customer_id = $1 AND tag_id = $2 RETURNING *"
    );
    assert_eq!(second.params(), vec![num(7), num(3)]);
    // only the linker row is deleted; no statement runs against tags
    expect_done(&mut saver, Some(SaveEvent::Rows(vec![])));
}

#[test]
fn scenario_indirect_link_new() {
    let mut changeset = edited_main_changeset();
    changeset.indirect = vec![(
        "tags".to_string(),
        "tag_link".to_string(),
        RecordAction::LinkNew,
        vec![rec(vec![("label", text("new"))])],
    )];
    let mut saver = ChangesetSaver::new(all_tables(), window(), customers(), changeset);
    let first = execute_step(&mut saver, None);
    assert_eq!(first.kind(), StatementKind::Update);
    let updated = rec(vec![("id", num(7)), ("name", text("Acme"))]);
    let second = execute_step(&mut saver, Some(SaveEvent::Rows(vec![updated])));
    // the indirect record is created first ...
    assert_eq!(second.render(), "INSERT INTO tags (label) VALUES ($1) RETURNING *");
    let created = rec(vec![("id", num(3)), ("label", text("new"))]);
    let third = execute_step(&mut saver, Some(SaveEvent::Rows(vec![created])));
    // ... and only then linked, with its freshly generated id
    assert_eq!(
        third.render(),
        "INSERT INTO tag_link (customer_id, tag_id) VALUES ($1, $2) RETURNING *"
    );
    assert_eq!(third.params(), vec![num(7), num(3)]);
    expect_done(&mut saver, Some(SaveEvent::Rows(vec![])));
}

/// Re-running the same `LinkExisting` changeset issues the identical linker
/// insert again: the engine keeps no memory across sessions and adds no
/// existence guard, so with a unique constraint on the pair the second run
/// fails in the database, and without one a duplicate linker row appears.
#[test]
fn link_existing_reissues_identical_statements() {
    let first_run = run_link_existing();
    let second_run = run_link_existing();
    assert_eq!(first_run, second_run);
}

#[test]
fn create_new_main_record_insert() {
    let mut changeset = edited_main_changeset();
    changeset.action = RecordAction::CreateNew;
    changeset.record = rec(vec![("id", Value::Nil), ("name", text("Acme"))]);
    let mut saver = ChangesetSaver::new(all_tables(), window(), customers(), changeset);
    let stmt = execute_step(&mut saver, None);
    // id is primary and never in the insert column list; the serial default
    // fills it in
    assert_eq!(stmt.render(), "INSERT INTO customers (name) VALUES ($1) RETURNING *");
    assert_eq!(stmt.params(), vec![text("Acme")]);
}

#[test]
fn unsupported_main_action_is_refused() {
    let mut changeset = edited_main_changeset();
    changeset.action = RecordAction::Unlink;
    let mut saver = ChangesetSaver::new(all_tables(), window(), customers(), changeset);
    assert_eq!(
        saver.step(None),
        Err(IntelError::UnsupportedAction { action: RecordAction::Unlink })
    );
}

#[test]
fn unsupported_has_many_action_is_refused() {
    let mut changeset = edited_main_changeset();
    changeset.has_many =
        vec![("orders".to_string(), RecordAction::CreateNew, vec![rec(vec![])])];
    let mut saver = ChangesetSaver::new(all_tables(), window(), customers(), changeset);
    let _ = execute_step(&mut saver, None);
    let updated = rec(vec![("id", num(7)), ("name", text("Acme"))]);
    assert_eq!(
        saver.step(Some(SaveEvent::Rows(vec![updated]))),
        Err(IntelError::UnsupportedAction { action: RecordAction::CreateNew })
    );
}

#[test]
fn unsupported_indirect_action_is_refused() {
    let mut changeset = edited_main_changeset();
    changeset.indirect = vec![(
        "tags".to_string(),
        "tag_link".to_string(),
        RecordAction::Edited,
        vec![rec(vec![("id", num(3))])],
    )];
    let mut saver = ChangesetSaver::new(all_tables(), window(), customers(), changeset);
    let _ = execute_step(&mut saver, None);
    let updated = rec(vec![("id", num(7)), ("name", text("Acme"))]);
    // an action outside the indirect set is rejected, never a silent no-op
    assert_eq!(
        saver.step(Some(SaveEvent::Rows(vec![updated]))),
        Err(IntelError::UnsupportedAction { action: RecordAction::Edited })
    );
}

#[test]
fn has_many_table_must_belong_to_the_window() {
    let mut changeset = edited_main_changeset();
    changeset.has_many = vec![("tags".to_string(), RecordAction::LinkNew, vec![])];
    let mut saver = ChangesetSaver::new(all_tables(), window(), customers(), changeset);
    let _ = execute_step(&mut saver, None);
    let updated = rec(vec![("id", num(7)), ("name", text("Acme"))]);
    assert_eq!(
        saver.step(Some(SaveEvent::Rows(vec![updated]))),
        Err(IntelError::TabNotFound { table: "tags".to_string() })
    );
}

#[test]
fn unknown_indirect_table_is_refused() {
    let mut changeset = edited_main_changeset();
    changeset.indirect = vec![(
        "missing".to_string(),
        "tag_link".to_string(),
        RecordAction::LinkExisting,
        vec![],
    )];
    let mut saver = ChangesetSaver::new(all_tables(), window(), customers(), changeset);
    let _ = execute_step(&mut saver, None);
    let updated = rec(vec![("id", num(7)), ("name", text("Acme"))]);
    assert_eq!(
        saver.step(Some(SaveEvent::Rows(vec![updated]))),
        Err(IntelError::TableNotFound { table: "missing".to_string() })
    );
}

#[test]
fn database_failure_aborts_the_session() {
    let mut saver =
        ChangesetSaver::new(all_tables(), window(), customers(), edited_main_changeset());
    let _ = execute_step(&mut saver, None);
    let failure = DbError { message: "unique violation".to_string() };
    match saver.step(Some(SaveEvent::Failed(failure))) {
        Err(IntelError::Execution { table, kind, error }) => {
            assert_eq!(table, "customers".to_string());
            assert_eq!(kind, StatementKind::Update);
            assert_eq!(error.message, "unique violation".to_string());
        }
        other => panic!("expected an execution error, got {:?}", other),
    }
    assert_eq!(saver.step(None), Err(IntelError::SessionClosed));
}

#[test]
fn protocol_violations_are_reported() {
    let mut saver =
        ChangesetSaver::new(all_tables(), window(), customers(), edited_main_changeset());
    assert_eq!(
        saver.step(Some(SaveEvent::Rows(vec![]))),
        Err(IntelError::UnexpectedResponse)
    );
    let mut saver2 =
        ChangesetSaver::new(all_tables(), window(), customers(), edited_main_changeset());
    let _ = execute_step(&mut saver2, None);
    assert_eq!(
        saver2.step(Some(SaveEvent::Rows(vec![]))),
        Err(IntelError::NoRowReturned { table: "customers".to_string() })
    );
}

#[test]
fn missing_update_value_is_a_precondition_violation() {
    let table = customers();
    let record = rec(vec![("id", num(7))]);
    assert_eq!(
        update_statement(&table, &record),
        Err(IntelError::MissingColumnValue {
            table: "customers".to_string(),
            column: "name".to_string(),
        })
    );
}

#[test]
fn insert_aligns_columns_and_placeholders() {
    let table = orders();
    let rows = vec![
        rec(vec![("customer_id", num(1)), ("total", num(10))]),
        rec(vec![("customer_id", num(2)), ("total", num(20))]),
    ];
    let stmt = insert_statement(&table, &rows).unwrap();
    let sql = stmt.render();
    // placeholders 1..4 appear exactly once each, row-major
    assert_eq!(
        sql,
        "INSERT INTO orders (customer_id, total) VALUES ($1, $2), ($3, $4) RETURNING *"
    );
    assert_eq!(stmt.params(), vec![num(1), num(10), num(2), num(20)]);
}

#[test]
fn insert_omits_all_nil_generated_default_columns() {
    let table = Table {
        name: "events".to_string(),
        columns: vec![
            col("id", SqlType::Int, true, true, true),
            col("stamp", SqlType::Text, false, true, true),
            col("payload", SqlType::Text, false, false, false),
        ],
        foreign_keys: vec![],
    };
    let all_nil_rows = vec![
        rec(vec![("stamp", Value::Nil), ("payload", text("a"))]),
        rec(vec![("stamp", Value::Nil), ("payload", text("b"))]),
    ];
    let stmt = insert_statement(&table, &all_nil_rows).unwrap();
    assert_eq!(stmt.render(), "INSERT INTO events (payload) VALUES ($1), ($2) RETURNING *");
    assert_eq!(stmt.params(), vec![text("a"), text("b")]);
    // one bound value anywhere in the batch keeps the column listed
    let mixed_rows = vec![
        rec(vec![("stamp", Value::Nil), ("payload", text("a"))]),
        rec(vec![("stamp", text("now")), ("payload", text("b"))]),
    ];
    let stmt2 = insert_statement(&table, &mixed_rows).unwrap();
    assert_eq!(
        stmt2.render(),
        "INSERT INTO events (stamp, payload) VALUES ($1, $2), ($3, $4) RETURNING *"
    );
    assert_eq!(stmt2.params(), vec![Value::Nil, text("a"), text("now"), text("b")]);
}

#[test]
fn update_binds_keys_strictly_after_values() {
    let table = Table {
        name: "t".to_string(),
        columns: vec![
            col("k1", SqlType::Int, true, true, false),
            col("a", SqlType::Text, false, false, false),
            col("k2", SqlType::Int, true, true, false),
            col("b", SqlType::Text, false, false, false),
        ],
        foreign_keys: vec![],
    };
    let record = rec(vec![
        ("k1", num(1)),
        ("a", text("x")),
        ("k2", num(2)),
        ("b", text("y")),
    ]);
    let stmt = update_statement(&table, &record).unwrap();
    assert_eq!(
        stmt.render(),
        "UPDATE t SET a = $1, b = $2 WHERE k1 = $3 AND k2 = $4 RETURNING *"
    );
    assert_eq!(stmt.params(), vec![text("x"), text("y"), num(1), num(2)]);
}

#[test]
fn delete_keys_on_the_primary_columns() {
    let stmt = delete_statement(&tag_link(), &rec(vec![
        ("customer_id", num(7)),
        ("tag_id", num(3)),
    ]))
    .unwrap();
    assert_eq!(
        stmt.render(),
        "DELETE FROM tag_link WHERE customer_id = $1 AND tag_id = $2 RETURNING *"
    );
    assert_eq!(stmt.params(), vec![num(7), num(3)]);
}

#[test]
fn upsert_conflicts_on_the_childs_own_key_and_scopes_by_the_parent() {
    let users = Table {
        name: "users".to_string(),
        columns: vec![
            col("id", SqlType::Int, true, true, true),
            col("login", SqlType::Text, false, false, false),
        ],
        foreign_keys: vec![],
    };
    let profiles = Table {
        name: "profiles".to_string(),
        columns: vec![
            col("user_id", SqlType::Int, true, true, false),
            col("bio", SqlType::Text, false, false, false),
        ],
        foreign_keys: vec![fk("users", "user_id", "id")],
    };
    let main_record = rec(vec![("id", num(7)), ("login", text("ann"))]);
    let one_one_record = rec(vec![("user_id", Value::Nil), ("bio", text("hi"))]);
    let stmt = upsert_statement(&users, &main_record, &profiles, &one_one_record).unwrap();
    assert_eq!(
        stmt.render(),
        "INSERT INTO profiles (user_id, bio) VALUES ($1, $2) ON CONFLICT (user_id) \
         DO UPDATE SET user_id = $3, bio = $4 WHERE profiles.user_id = $5 RETURNING *"
    );
    // the scoping value is the parent's id, propagated into the child's
    // foreign-key column
    assert_eq!(stmt.params(), vec![num(7), text("hi"), num(7), text("hi"), num(7)]);
}

#[test]
fn one_one_upsert_runs_after_the_main_record() {
    let users = Table {
        name: "users".to_string(),
        columns: vec![
            col("id", SqlType::Int, true, true, true),
            col("login", SqlType::Text, false, false, false),
        ],
        foreign_keys: vec![],
    };
    let profiles = Table {
        name: "profiles".to_string(),
        columns: vec![
            col("user_id", SqlType::Int, true, true, false),
            col("bio", SqlType::Text, false, false, false),
        ],
        foreign_keys: vec![fk("users", "user_id", "id")],
    };
    let changeset = RecordChangeset {
        action: RecordAction::Edited,
        record: rec(vec![("id", num(7)), ("login", text("ann"))]),
        one_ones: vec![(
            "profiles".to_string(),
            Some(rec(vec![("user_id", Value::Nil), ("bio", text("hi"))])),
        )],
        has_many: vec![],
        indirect: vec![],
    };
    let tables = vec![users.clone_table(), profiles.clone_table()];
    let win = Window { one_one_tabs: vec![], has_many_tabs: vec![], indirect_tabs: vec![] };
    let mut saver = ChangesetSaver::new(tables, win, users, changeset);
    let first = execute_step(&mut saver, None);
    assert_eq!(first.kind(), StatementKind::Update);
    let updated = rec(vec![("id", num(7)), ("login", text("ann"))]);
    let second = execute_step(&mut saver, Some(SaveEvent::Rows(vec![updated])));
    assert_eq!(second.kind(), StatementKind::Upsert);
    assert_eq!(second.table_name().as_str(), "profiles");
    expect_done(&mut saver, Some(SaveEvent::Rows(vec![])));
}

#[test]
fn resolver_requires_exactly_one_pair() {
    let no_fk = tags();
    assert_eq!(
        find_fk_pair(&no_fk, "customers").err(),
        Some(IntelError::NoForeignKeyPair {
            table: "tags".to_string(),
            referred_table: "customers".to_string(),
        })
    );
    let two = Table {
        name: "twice".to_string(),
        columns: vec![col("a", SqlType::Int, true, true, false)],
        foreign_keys: vec![fk("customers", "a", "id"), fk("customers", "b", "id")],
    };
    assert_eq!(
        find_fk_pair(&two, "customers").err(),
        Some(IntelError::AmbiguousForeignKeyPair {
            table: "twice".to_string(),
            referred_table: "customers".to_string(),
        })
    );
    let linker = tag_link();
    let one = find_fk_pair(&linker, "customers").unwrap();
    assert_eq!(one.local_column, "customer_id".to_string());
    assert_eq!(one.referred_column, "id".to_string());
}

#[test]
fn linker_record_copies_the_parents_values() {
    let main_record = rec(vec![("id", num(7)), ("name", text("Acme"))]);
    let indirect_record = rec(vec![("id", num(3))]);
    let linker = create_linker_record(
        &customers(),
        &main_record,
        &tag_link(),
        &tags(),
        &indirect_record,
    )
    .unwrap();
    assert_eq!(linker.get_value("customer_id"), Some(&num(7)));
    assert_eq!(linker.get_value("tag_id"), Some(&num(3)));
    assert_eq!(linker.pairs.len(), 2);
}

#[test]
fn delete_records_builds_one_in_list() {
    let stmt = delete_records(&customers(), &vec!["1".to_string(), "23".to_string()]).unwrap();
    assert_eq!(stmt.render(), "DELETE FROM customers WHERE id IN ($1, $2) RETURNING *");
    assert_eq!(stmt.params(), vec![num(1), num(23)]);
}

#[test]
fn delete_records_refuses_composite_keys_and_bad_ids() {
    assert_eq!(
        delete_records(&tag_link(), &vec!["1".to_string()]),
        Err(IntelError::CompositePrimaryKey { table: "tag_link".to_string() })
    );
    assert_eq!(
        delete_records(&customers(), &vec!["seven".to_string()]),
        Err(IntelError::InvalidRecordId { record_id: "seven".to_string() })
    );
}

#[test]
fn delete_records_requires_a_primary_key() {
    let keyless = Table {
        name: "log".to_string(),
        columns: vec![col("line", SqlType::Text, false, false, false)],
        foreign_keys: vec![],
    };
    assert_eq!(
        delete_records(&keyless, &vec!["1".to_string()]),
        Err(IntelError::NoPrimaryKey { table: "log".to_string() })
    );
}

#[test]
fn delete_in_statement_renders_the_in_list() {
    let stmt = delete_in_statement(&customers(), &vec![num(1), num(2), num(3)]).unwrap();
    assert_eq!(
        stmt.render(),
        "DELETE FROM customers WHERE id IN ($1, $2, $3) RETURNING *"
    );
}

#[test]
fn save_container_inserts_then_updates() {
    let container = SaveContainer {
        for_insert: (
            "orders".to_string(),
            vec![rec(vec![("customer_id", num(7)), ("total", num(10))])],
        ),
        for_update: (
            "customers".to_string(),
            vec![rec(vec![("id", num(7)), ("name", text("Acme"))])],
        ),
    };
    let stmts = save_container(&all_tables(), &container).unwrap();
    assert_eq!(stmts.len(), 2);
    assert_eq!(stmts[0].kind(), StatementKind::Insert);
    assert_eq!(stmts[0].table_name(), "orders");
    assert_eq!(stmts[1].kind(), StatementKind::Update);
    assert_eq!(
        stmts[1].render(),
        "UPDATE customers SET name = $1 WHERE id = $2 RETURNING *"
    );
}

#[test]
fn save_container_skips_an_empty_insert_batch() {
    let container = SaveContainer {
        for_insert: ("orders".to_string(), vec![]),
        for_update: (
            "customers".to_string(),
            vec![rec(vec![("id", num(7)), ("name", text("Acme"))])],
        ),
    };
    let stmts = save_container(&all_tables(), &container).unwrap();
    assert_eq!(stmts.len(), 1);
    assert_eq!(stmts[0].kind(), StatementKind::Update);
}

#[test]
fn parse_i64_reads_decimal_integers() {
    assert_eq!(parse_i64("0"), Some(0));
    assert_eq!(parse_i64("23"), Some(23));
    assert_eq!(parse_i64("-5"), Some(-5));
    assert_eq!(parse_i64("123456789012345678"), Some(123456789012345678));
    assert_eq!(parse_i64(""), None);
    assert_eq!(parse_i64("-"), None);
    assert_eq!(parse_i64("1x"), None);
    assert_eq!(parse_i64("1234567890123456789"), None);
}

#[test]
fn record_insert_replaces_and_appends() {
    let mut record = Record::new();
    record.insert_value("a", num(1));
    record.insert_value("b", num(2));
    record.insert_value("a", num(3));
    assert_eq!(record.get_value("a"), Some(&num(3)));
    assert_eq!(record.get_value("b"), Some(&num(2)));
    assert_eq!(record.get_value("c"), None);
    assert_eq!(record.pairs.len(), 2);
}

#[test]
fn values_tell_nil_apart() {
    assert!(Value::Nil.is_nil());
    assert!(!num(0).is_nil());
    assert_eq!(text("x").clone_value(), text("x"));
}
