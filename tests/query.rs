use std::cmp::Ordering;

use easydb::database::{handle_insert, handle_query, Database};
use easydb::query::{test_cell, QueryOp, OP_AL, OP_EQ, OP_GE, OP_GT, OP_LE, OP_LT, OP_NE};
use easydb::request::{ErrorCode, Response};
use easydb::schema::{Column, Table};
use easydb::value::{float_compare, text_compare, ColumnType, Value};

fn col(c_type: ColumnType, c_ref: i32) -> Column {
    Column { c_type, c_ref }
}

fn text(s: &str) -> Value {
    Value::Text(String::from(s))
}

fn float(f: f64) -> Value {
    Value::Float(f.to_bits())
}

/// Table 1: (Integer, Text); table 2: (Float, Foreign -> 1).
fn sample() -> Database {
    let mut db = Database::new(vec![
        Table { t_cols: vec![col(ColumnType::Integer, 0), col(ColumnType::Text, 0)] },
        Table { t_cols: vec![col(ColumnType::Float, 0), col(ColumnType::Foreign, 1)] },
    ]);
    handle_insert(&mut db, 1, vec![Value::Integer(5), text("a")]).unwrap();
    handle_insert(&mut db, 1, vec![Value::Integer(7), text("b")]).unwrap();
    handle_insert(&mut db, 2, vec![float(1.5), Value::Foreign(1)]).unwrap();
    handle_insert(&mut db, 2, vec![float(-2.0), Value::Foreign(2)]).unwrap();
    db
}

fn ids(r: Result<Response, ErrorCode>) -> Vec<i64> {
    match r {
        Ok(Response::Query(v)) => v,
        other => panic!("unexpected {:?}", other),
    }
}

fn err(r: Result<Response, ErrorCode>) -> ErrorCode {
    match r {
        Err(e) => e,
        other => panic!("unexpected {:?}", other),
    }
}

#[test]
fn query_integer_less_than() {
    let db = sample();
    assert_eq!(ids(handle_query(&db, 1, 1, OP_LT, Value::Integer(7))), vec![1]);
}

#[test]
fn query_integer_all_relations() {
    let db = sample();
    assert_eq!(ids(handle_query(&db, 1, 1, OP_EQ, Value::Integer(7))), vec![2]);
    assert_eq!(ids(handle_query(&db, 1, 1, OP_NE, Value::Integer(7))), vec![1]);
    assert_eq!(ids(handle_query(&db, 1, 1, OP_GT, Value::Integer(5))), vec![2]);
    assert_eq!(ids(handle_query(&db, 1, 1, OP_LE, Value::Integer(7))), vec![1, 2]);
    assert_eq!(ids(handle_query(&db, 1, 1, OP_GE, Value::Integer(8))), Vec::<i64>::new());
}

#[test]
fn query_by_row_id() {
    let db = sample();
    assert_eq!(ids(handle_query(&db, 1, 0, OP_EQ, Value::Integer(2))), vec![2]);
    assert_eq!(ids(handle_query(&db, 1, 0, OP_NE, Value::Integer(2))), vec![1]);
}

#[test]
fn query_all_rows() {
    let db = sample();
    assert_eq!(ids(handle_query(&db, 1, 0, OP_AL, Value::Null)), vec![1, 2]);
}

#[test]
fn query_text_lexicographic() {
    let db = sample();
    assert_eq!(ids(handle_query(&db, 1, 2, OP_GT, text("a"))), vec![2]);
    assert_eq!(ids(handle_query(&db, 1, 2, OP_LT, text("ab"))), vec![1]);
    assert_eq!(ids(handle_query(&db, 1, 2, OP_EQ, text("b"))), vec![2]);
}

#[test]
fn query_float_equality_is_refused() {
    let db = sample();
    assert_eq!(err(handle_query(&db, 2, 1, OP_EQ, float(1.5))), ErrorCode::BadQuery);
}

#[test]
fn query_float_order() {
    let db = sample();
    assert_eq!(ids(handle_query(&db, 2, 1, OP_LT, float(0.0))), vec![2]);
    assert_eq!(ids(handle_query(&db, 2, 1, OP_GE, float(1.5))), vec![1]);
    assert_eq!(ids(handle_query(&db, 2, 1, OP_NE, float(1.5))), vec![2]);
    assert_eq!(ids(handle_query(&db, 2, 1, OP_NE, float(f64::NAN))), vec![1, 2]);
    assert_eq!(ids(handle_query(&db, 2, 1, OP_LT, float(f64::NAN))), Vec::<i64>::new());
}

#[test]
fn query_foreign_equality_only() {
    let db = sample();
    assert_eq!(ids(handle_query(&db, 2, 2, OP_EQ, Value::Foreign(2))), vec![2]);
    assert_eq!(ids(handle_query(&db, 2, 2, OP_NE, Value::Foreign(2))), vec![1]);
    assert_eq!(err(handle_query(&db, 2, 2, OP_LT, Value::Foreign(2))), ErrorCode::BadQuery);
}

#[test]
fn query_errors() {
    let db = sample();
    assert_eq!(err(handle_query(&db, 3, 0, OP_AL, Value::Null)), ErrorCode::BadTable);
    assert_eq!(err(handle_query(&db, 1, 3, OP_EQ, Value::Integer(1))), ErrorCode::BadQuery);
    assert_eq!(err(handle_query(&db, 1, -1, OP_EQ, Value::Integer(1))), ErrorCode::BadQuery);
    assert_eq!(err(handle_query(&db, 1, 1, OP_AL, Value::Null)), ErrorCode::BadQuery);
    assert_eq!(err(handle_query(&db, 1, 1, 42, Value::Integer(1))), ErrorCode::BadQuery);
    assert_eq!(err(handle_query(&db, 1, 0, OP_LT, Value::Integer(1))), ErrorCode::BadQuery);
    assert_eq!(err(handle_query(&db, 1, 0, OP_EQ, text("x"))), ErrorCode::BadQuery);
    assert_eq!(err(handle_query(&db, 1, 1, OP_EQ, text("x"))), ErrorCode::BadQuery);
}

#[test]
fn query_on_empty_table() {
    let mut db = sample();
    db.tables[0].content.clear();
    assert_eq!(ids(handle_query(&db, 1, 1, OP_EQ, Value::Integer(5))), Vec::<i64>::new());
}

#[test]
fn float_compare_follows_ieee() {
    assert_eq!(float_compare((-1.0f64).to_bits(), 2.0f64.to_bits()), Some(Ordering::Less));
    assert_eq!(float_compare(3.0f64.to_bits(), 2.5f64.to_bits()), Some(Ordering::Greater));
    assert_eq!(float_compare((-0.0f64).to_bits(), 0.0f64.to_bits()), Some(Ordering::Equal));
    assert_eq!(float_compare((-3.0f64).to_bits(), (-2.0f64).to_bits()), Some(Ordering::Less));
    assert_eq!(float_compare(f64::INFINITY.to_bits(), f64::MAX.to_bits()), Some(Ordering::Greater));
    assert_eq!(float_compare(f64::NAN.to_bits(), 1.0f64.to_bits()), None);
}

#[test]
fn text_cells_compare_by_contents() {
    assert_eq!(test_cell(QueryOp::Gt, &text("b"), &text("a")), Ok(true));
    assert_eq!(test_cell(QueryOp::Lt, &text("b"), &text("a")), Ok(false));
    assert_eq!(test_cell(QueryOp::Lt, &text("Z"), &text("a")), Ok(true));
    assert_eq!(test_cell(QueryOp::Gt, &text("\u{e9}"), &text("z")), Ok(true));
    assert_eq!(test_cell(QueryOp::Le, &text("ab"), &text("ab")), Ok(true));
    assert_eq!(test_cell(QueryOp::All, &text("b"), &text("a")), Err(ErrorCode::BadQuery));
}

#[test]
fn op_codes_decode() {
    assert_eq!(QueryOp::from_code(OP_AL), Some(QueryOp::All));
    assert_eq!(QueryOp::from_code(OP_GE), Some(QueryOp::Ge));
    assert_eq!(QueryOp::from_code(0), None);
    assert_eq!(QueryOp::from_code(8), None);
}

#[test]
fn text_compare_agrees_with_str_order() {
    let words = ["", "a", "ab", "b", "Z", "z", "\u{e9}", "\u{e9}t\u{e9}", "\u{1f600}", "\u{ffff}", "abc", "ab\u{e9}"];
    for x in words.iter() {
        for y in words.iter() {
            let (sx, sy) = (String::from(*x), String::from(*y));
            assert_eq!(text_compare(&sx, &sy), x.cmp(y), "{:?} vs {:?}", x, y);
        }
    }
}
