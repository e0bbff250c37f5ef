use easydb::database::{handle_drop, handle_get, handle_insert, handle_request, handle_update, Database};
use easydb::request::{Command, ErrorCode, Request, Response};
use easydb::schema::{Column, Table};
use easydb::value::{ColumnType, Value};

fn col(c_type: ColumnType, c_ref: i32) -> Column {
    Column { c_type, c_ref }
}

/// Table 1: (Integer, Text); table 2: (Foreign -> 1, Integer); table 3: (Foreign -> 2).
fn linked_db() -> Database {
    Database::new(vec![
        Table { t_cols: vec![col(ColumnType::Integer, 0), col(ColumnType::Text, 0)] },
        Table { t_cols: vec![col(ColumnType::Foreign, 1), col(ColumnType::Integer, 0)] },
        Table { t_cols: vec![col(ColumnType::Foreign, 2)] },
    ])
}

fn text(s: &str) -> Value {
    Value::Text(String::from(s))
}

fn inserted(r: Result<Response, ErrorCode>) -> (i64, i64) {
    match r {
        Ok(Response::Insert(id, v)) => (id, v),
        other => panic!("unexpected {:?}", other),
    }
}

fn err(r: Result<Response, ErrorCode>) -> ErrorCode {
    match r {
        Err(e) => e,
        other => panic!("unexpected {:?}", other),
    }
}

fn row_present(db: &Database, t: i32, id: i64) -> bool {
    handle_get(db, t, id).is_ok()
}

#[test]
fn new_database_has_empty_tables() {
    let db = linked_db();
    assert_eq!(db.tables.len(), 3);
    for t in &db.tables {
        assert_eq!(t.content.len(), 0);
        assert_eq!(t.row_count, 0);
    }
}

#[test]
fn insert_assigns_ids_from_one_at_version_one() {
    let mut db = linked_db();
    assert_eq!(inserted(handle_insert(&mut db, 1, vec![Value::Integer(5), text("a")])), (1, 1));
    assert_eq!(inserted(handle_insert(&mut db, 1, vec![Value::Integer(7), text("b")])), (2, 1));
    assert_eq!(inserted(handle_insert(&mut db, 2, vec![Value::Foreign(2), Value::Null])), (1, 1));
}

#[test]
fn insert_accepts_null_in_any_column() {
    let mut db = linked_db();
    assert_eq!(inserted(handle_insert(&mut db, 1, vec![Value::Null, Value::Null])), (1, 1));
    assert_eq!(inserted(handle_insert(&mut db, 3, vec![Value::Null])), (1, 1));
}

#[test]
fn insert_rejects_bad_table() {
    let mut db = linked_db();
    assert_eq!(err(handle_insert(&mut db, 0, vec![])), ErrorCode::BadTable);
    assert_eq!(err(handle_insert(&mut db, 4, vec![])), ErrorCode::BadTable);
}

#[test]
fn insert_rejects_wrong_arity() {
    let mut db = linked_db();
    assert_eq!(err(handle_insert(&mut db, 1, vec![Value::Integer(1)])), ErrorCode::BadRow);
    assert_eq!(db.tables[0].row_count, 0);
}

#[test]
fn insert_rejects_wrong_type() {
    let mut db = linked_db();
    assert_eq!(err(handle_insert(&mut db, 1, vec![text("x"), text("y")])), ErrorCode::BadValue);
    assert_eq!(
        err(handle_insert(&mut db, 1, vec![Value::Float(1.5f64.to_bits()), text("y")])),
        ErrorCode::BadValue
    );
}

#[test]
fn insert_rejects_foreign_in_plain_column() {
    let mut db = linked_db();
    handle_insert(&mut db, 1, vec![Value::Integer(1), text("a")]).unwrap();
    assert_eq!(err(handle_insert(&mut db, 1, vec![Value::Foreign(1), text("a")])), ErrorCode::BadValue);
}

#[test]
fn insert_rejects_dangling_foreign() {
    let mut db = linked_db();
    assert_eq!(err(handle_insert(&mut db, 2, vec![Value::Foreign(1), Value::Null])), ErrorCode::BadForeign);
    assert_eq!(db.tables[1].content.len(), 0);
}

#[test]
fn get_returns_version_and_values() {
    let mut db = linked_db();
    handle_insert(&mut db, 1, vec![Value::Integer(5), text("a")]).unwrap();
    match handle_get(&db, 1, 1) {
        Ok(Response::Get(v, vals)) => {
            assert_eq!(v, 1);
            assert!(matches!(vals[0], Value::Integer(5)));
            assert!(matches!(&vals[1], Value::Text(s) if s == "a"));
        }
        other => panic!("unexpected {:?}", other),
    }
    assert_eq!(err(handle_get(&db, 1, 2)), ErrorCode::NotFound);
    assert_eq!(err(handle_get(&db, 9, 1)), ErrorCode::BadTable);
}

#[test]
fn update_with_current_version_advances_it() {
    let mut db = linked_db();
    handle_insert(&mut db, 1, vec![Value::Integer(5), text("a")]).unwrap();
    assert!(matches!(
        handle_update(&mut db, 1, 1, 1, vec![Value::Integer(6), text("b")]),
        Ok(Response::Update(2))
    ));
    match handle_get(&db, 1, 1) {
        Ok(Response::Get(2, vals)) => assert!(matches!(vals[0], Value::Integer(6))),
        other => panic!("unexpected {:?}", other),
    }
}

#[test]
fn update_with_stale_version_aborts_and_keeps_row() {
    let mut db = linked_db();
    handle_insert(&mut db, 1, vec![Value::Integer(5), text("a")]).unwrap();
    handle_update(&mut db, 1, 1, 1, vec![Value::Integer(6), text("b")]).unwrap();
    assert_eq!(
        err(handle_update(&mut db, 1, 1, 1, vec![Value::Integer(7), text("c")])),
        ErrorCode::TxnAbort
    );
    assert_eq!(
        err(handle_update(&mut db, 1, 1, 9, vec![Value::Integer(7), text("c")])),
        ErrorCode::TxnAbort
    );
    match handle_get(&db, 1, 1) {
        Ok(Response::Get(2, vals)) => assert!(matches!(vals[0], Value::Integer(6))),
        other => panic!("unexpected {:?}", other),
    }
}

#[test]
fn update_with_version_zero_always_applies() {
    let mut db = linked_db();
    handle_insert(&mut db, 1, vec![Value::Integer(5), text("a")]).unwrap();
    handle_update(&mut db, 1, 1, 0, vec![Value::Integer(6), text("b")]).unwrap();
    assert!(matches!(
        handle_update(&mut db, 1, 1, 0, vec![Value::Integer(7), text("c")]),
        Ok(Response::Update(3))
    ));
}

#[test]
fn update_errors() {
    let mut db = linked_db();
    handle_insert(&mut db, 1, vec![Value::Integer(5), text("a")]).unwrap();
    assert_eq!(err(handle_update(&mut db, 1, 2, 0, vec![Value::Integer(1), text("a")])), ErrorCode::NotFound);
    assert_eq!(err(handle_update(&mut db, 1, 1, 0, vec![Value::Integer(1)])), ErrorCode::BadRow);
    assert_eq!(err(handle_update(&mut db, 1, 1, 0, vec![text("x"), text("a")])), ErrorCode::BadValue);
    assert_eq!(err(handle_update(&mut db, 5, 1, 0, vec![])), ErrorCode::BadTable);
    // validation of the values comes before the lookup of the row
    assert_eq!(err(handle_update(&mut db, 1, 2, 0, vec![Value::Integer(1)])), ErrorCode::BadRow);
}

#[test]
fn drop_cascades_through_references() {
    let mut db = linked_db();
    handle_insert(&mut db, 1, vec![Value::Integer(1), text("a")]).unwrap();
    handle_insert(&mut db, 1, vec![Value::Integer(2), text("b")]).unwrap();
    handle_insert(&mut db, 2, vec![Value::Foreign(1), Value::Integer(10)]).unwrap();
    handle_insert(&mut db, 2, vec![Value::Foreign(2), Value::Integer(20)]).unwrap();
    handle_insert(&mut db, 2, vec![Value::Foreign(1), Value::Integer(30)]).unwrap();
    handle_insert(&mut db, 3, vec![Value::Foreign(1)]).unwrap();
    handle_insert(&mut db, 3, vec![Value::Foreign(2)]).unwrap();
    handle_insert(&mut db, 3, vec![Value::Foreign(3)]).unwrap();
    assert!(matches!(handle_drop(&mut db, 1, 1), Ok(Response::Drop)));
    assert!(!row_present(&db, 1, 1));
    assert!(row_present(&db, 1, 2));
    assert!(!row_present(&db, 2, 1));
    assert!(row_present(&db, 2, 2));
    assert!(!row_present(&db, 2, 3));
    assert!(!row_present(&db, 3, 1));
    assert!(row_present(&db, 3, 2));
    assert!(!row_present(&db, 3, 3));
}

#[test]
fn drop_errors_leave_store_unchanged() {
    let mut db = linked_db();
    handle_insert(&mut db, 1, vec![Value::Integer(1), text("a")]).unwrap();
    assert_eq!(err(handle_drop(&mut db, 1, 2)), ErrorCode::NotFound);
    assert_eq!(err(handle_drop(&mut db, 7, 1)), ErrorCode::BadTable);
    assert!(row_present(&db, 1, 1));
}

#[test]
fn ids_are_not_reused_after_drop() {
    let mut db = linked_db();
    handle_insert(&mut db, 1, vec![Value::Integer(1), text("a")]).unwrap();
    handle_insert(&mut db, 1, vec![Value::Integer(2), text("b")]).unwrap();
    handle_drop(&mut db, 1, 2).unwrap();
    assert_eq!(inserted(handle_insert(&mut db, 1, vec![Value::Integer(3), text("c")])), (3, 1));
    assert_eq!(db.tables[0].row_count, 3);
}

#[test]
fn successive_inserts_get_distinct_ids() {
    let mut db = linked_db();
    let mut ids = Vec::new();
    for i in 0..10 {
        ids.push(inserted(handle_insert(&mut db, 1, vec![Value::Integer(i), Value::Null])).0);
    }
    for k in 1..ids.len() {
        assert!(ids[k - 1] < ids[k]);
    }
}

#[test]
fn handle_request_dispatches_and_maps_errors() {
    let mut db = linked_db();
    let r = handle_request(
        Request { table_id: 1, command: Command::Insert(vec![Value::Integer(1), text("a")]) },
        &mut db,
    );
    assert!(matches!(r, Response::Insert(1, 1)));
    let r = handle_request(Request { table_id: 1, command: Command::Get(5) }, &mut db);
    assert!(matches!(r, Response::Error(ErrorCode::NotFound)));
    let r = handle_request(Request { table_id: 1, command: Command::Update(1, 1, vec![Value::Integer(2), text("b")]) }, &mut db);
    assert!(matches!(r, Response::Update(2)));
    let r = handle_request(Request { table_id: 1, command: Command::Query(0, 1, Value::Null) }, &mut db);
    assert!(matches!(r, Response::Query(ref v) if v == &vec![1]));
    let r = handle_request(Request { table_id: 1, command: Command::Drop(1) }, &mut db);
    assert!(matches!(r, Response::Drop));
    let r = handle_request(Request { table_id: 1, command: Command::Exit }, &mut db);
    assert!(matches!(r, Response::Error(ErrorCode::Unimplemented)));
}

#[test]
fn room_for_reports_counter_space() {
    let mut db = linked_db();
    let req = Request { table_id: 1, command: Command::Insert(vec![Value::Null, Value::Null]) };
    assert!(db.room_for(&req));
    db.tables[0].row_count = i64::MAX;
    assert!(!db.room_for(&req));
}

#[test]
fn type_is_checked_before_foreign_reference() {
    // an Integer column that still names table 1: a Foreign value is the wrong type
    let mut db = Database::new(vec![
        Table { t_cols: vec![col(ColumnType::Integer, 0)] },
        Table { t_cols: vec![col(ColumnType::Integer, 1)] },
    ]);
    assert_eq!(err(handle_insert(&mut db, 2, vec![Value::Foreign(5)])), ErrorCode::BadValue);
    // a Foreign column without a referenced table
    let mut db = Database::new(vec![Table { t_cols: vec![col(ColumnType::Foreign, 0)] }]);
    assert_eq!(err(handle_insert(&mut db, 1, vec![Value::Foreign(1)])), ErrorCode::BadValue);
    // a Foreign column naming a table that does not exist
    let mut db = Database::new(vec![Table { t_cols: vec![col(ColumnType::Foreign, 7)] }]);
    assert_eq!(err(handle_insert(&mut db, 1, vec![Value::Foreign(1)])), ErrorCode::BadForeign);
}

#[test]
fn first_bad_position_decides_the_error() {
    let mut db = linked_db();
    handle_insert(&mut db, 1, vec![Value::Integer(1), text("a")]).unwrap();
    assert_eq!(err(handle_insert(&mut db, 2, vec![Value::Foreign(9), text("x")])), ErrorCode::BadForeign);
    assert_eq!(err(handle_insert(&mut db, 2, vec![Value::Foreign(1), text("x")])), ErrorCode::BadValue);
}
