use vstd::prelude::*;
use crate::database::{Database, drop_effect, insert_effect, update_check, update_effect};
use crate::request::ErrorCode;
use crate::value::Value;

verus! {

/// In a well-formed store every stored value has its column's type or is
/// `Null`, and every foreign value names a row that exists in the table that
/// its column refers to.
pub proof fn lemma_stored_values_valid(db: Database, t: i32, r: i64, j: int)
    requires
        db.wf(),
        db.has_row(t, r),
        0 <= j < db.cols(t).len(),
    ensures
        db.row(t, r).row_values@.len() == db.cols(t).len(),
        db.row(t, r).row_values@[j].fits(db.cols(t)[j].c_type),
        db.row(t, r).row_values@[j] matches Value::Foreign(x) ==> db.has_row(db.cols(t)[j].c_ref, x),
{
    let tb = db.table(t);
    assert(db.table_wf(t));
    let k = tb.index_of(r);
    assert(tb.content@[k].0 == r);
    assert(db.values_fit(tb.cols(), tb.content@[k].1.row_values@));
    assert(db.cell_error(db.cols(t)[j], db.row(t, r).row_values@[j]) is None);
}

/// After a drop, the dropped row is gone, so is every row that referred to it
/// directly or through other rows, and no stored row refers to a missing one.
pub proof fn lemma_drop_complete(a: Database, b: Database, t: i32, id: i64, u: i32, r: i64)
    requires
        a.wf(),
        b.wf(),
        a.has_row(t, id),
        drop_effect(a, b, t, id),
        a.depends_on(u, r, t, id),
    ensures
        !b.has_row(t, id),
        !b.has_row(u, r),
{
    assert(a.reaches(t, id, t, id, 0));
}

/// An update whose expected version is 0 or the row's version passes the
/// version check; one with any other version is refused with `TxnAbort`.
pub proof fn lemma_version_check(db: Database, t: i32, id: i64, version: i64, vals: Seq<Value>)
    requires
        db.has_row(t, id),
        db.row_check(t, vals) is Ok,
    ensures
        version == 0 || version == db.row(t, id).version ==> update_check(db, t, id, version, vals)
            is Ok,
        version != 0 && version != db.row(t, id).version ==> update_check(
            db,
            t,
            id,
            version,
            vals,
        ) == Err::<(), ErrorCode>(ErrorCode::TxnAbort),
{
}

/// A successful update leaves the row at the next version with the new values.
pub proof fn lemma_update_next_version(a: Database, b: Database, t: i32, id: i64, vals: Vec<Value>)
    requires
        a.wf(),
        a.has_row(t, id),
        a.row(t, id).version < i64::MAX,
        b.wf(),
        update_effect(a, b, t, id, vals),
    ensures
        b.has_row(t, id),
        b.row(t, id).version == a.row(t, id).version + 1,
        b.row(t, id).row_values == vals,
{
    let k = a.table(t).index_of(id);
    assert(a.table(t).content@[k].0 == id);
    assert(b.table(t).content@[k].0 == id);
    assert(b.has_table(t));
    assert(b.table_wf(t));
    crate::database::lemma_index_of(b.table(t), k);
}

/// The id an insert hands out is above every id the table held, was never
/// present, and becomes the table's counter.
pub proof fn lemma_insert_id_fresh(a: Database, b: Database, t: i32, vals: Vec<Value>)
    requires
        a.wf(),
        a.has_table(t),
        insert_effect(a, b, t, vals),
    ensures
        !a.has_row(t, (a.table(t).row_count + 1) as i64),
        b.has_row(t, (a.table(t).row_count + 1) as i64),
        b.table(t).row_count == a.table(t).row_count + 1,
{
    let id = (a.table(t).row_count + 1) as i64;
    let n = a.table(t).content@.len();
    assert(b.table(t).content@[n as int].0 == id);
    assert(a.table_wf(t));
}

/// A drop keeps every table's counter, so ids of dropped rows are not handed out again.
pub proof fn lemma_drop_keeps_counters(a: Database, b: Database, t: i32, id: i64, u: i32)
    requires
        drop_effect(a, b, t, id),
        a.has_table(u),
    ensures
        b.table(u).row_count == a.table(u).row_count,
{
    assert(b.tables@[u - 1].row_count == a.tables@[u - 1].row_count);
}

/// Two inserts into one table, one after the other, get the next two ids in
/// turn: the second above the first, and the counter two above where it was.
pub proof fn lemma_successive_inserts_distinct(
    a: Database,
    b: Database,
    c: Database,
    t: i32,
    v1: Vec<Value>,
    v2: Vec<Value>,
)
    requires
        a.has_table(t),
        insert_effect(a, b, t, v1),
        insert_effect(b, c, t, v2),
    ensures
        b.table(t).row_count + 1 == a.table(t).row_count + 2,
        c.table(t).row_count == a.table(t).row_count + 2,
        a.table(t).row_count + 1 < b.table(t).row_count + 1,
{
}

} // verus!
