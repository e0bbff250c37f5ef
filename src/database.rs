use vstd::prelude::*;
use crate::request::{Command, ErrorCode, Request, Response};
use crate::schema::{Column, Table};
use crate::query::{QueryOp, cell_test, id_query_allowed, id_test, op_of_code, test_cell, test_id};
use crate::value::{ColumnType, Value, duplicate_values};

verus! {

/// A stored row: its version and its values, one per column.
#[derive(Debug)]
pub struct Row {
    pub version: i64,
    pub row_values: Vec<Value>,
}

/// One table: its schema, its rows keyed by row id, and the last id handed out.
#[derive(Debug)]
pub struct DTable {
    pub data: Table,
    pub content: Vec<(i64, Row)>,
    pub row_count: i64,
}

/// All tables; table `t` (counted from 1) is `tables[t - 1]`.
#[derive(Debug)]
pub struct Database {
    pub tables: Vec<DTable>,
}

impl DTable {
    pub open spec fn cols(self) -> Seq<Column> {
        self.data.t_cols@
    }

    pub open spec fn has_id(self, id: i64) -> bool {
        exists|i: int| 0 <= i < self.content@.len() && (#[trigger] self.content@[i]).0 == id
    }

    /// The position of row `id` in `content`.
    pub open spec fn index_of(self, id: i64) -> int {
        choose|i: int| 0 <= i < self.content@.len() && (#[trigger] self.content@[i]).0 == id
    }

    pub open spec fn row(self, id: i64) -> Row {
        self.content@[self.index_of(id)].1
    }

    pub open spec fn ids_unique(self) -> bool {
        forall|i: int, j: int|
            0 <= i < self.content@.len() && 0 <= j < self.content@.len() && i != j
                ==> (#[trigger] self.content@[i]).0 != (#[trigger] self.content@[j]).0
    }
}

/// With unique ids, the row found at position `k` is the one `index_of` names.
pub proof fn lemma_index_of(tb: DTable, k: int)
    requires
        tb.ids_unique(),
        0 <= k < tb.content@.len(),
    ensures
        tb.has_id(tb.content@[k].0),
        tb.index_of(tb.content@[k].0) == k,
        tb.row(tb.content@[k].0) == tb.content@[k].1,
{
    let id = tb.content@[k].0;
    assert(tb.has_id(id));
    let i = tb.index_of(id);
    assert(tb.content@[i].0 == id);
}

impl Database {
    pub open spec fn has_table(self, t: i32) -> bool {
        1 <= t <= self.tables@.len()
    }

    pub open spec fn table(self, t: i32) -> DTable {
        self.tables@[t - 1]
    }

    pub open spec fn cols(self, t: i32) -> Seq<Column> {
        self.table(t).cols()
    }

    pub open spec fn has_row(self, t: i32, id: i64) -> bool {
        self.has_table(t) && self.table(t).has_id(id)
    }

    pub open spec fn row(self, t: i32, id: i64) -> Row {
        self.table(t).row(id)
    }

    /// Why a value cannot stand in a column, if it cannot.
    pub open spec fn cell_error(self, col: Column, v: Value) -> Option<ErrorCode> {
        match v {
            Value::Null => None,
            _ => {
                if v.type_of() != Some(col.c_type) {
                    Some(ErrorCode::BadValue)
                } else {
                    match v {
                        Value::Foreign(r) => {
                            if col.c_ref == 0 {
                                Some(ErrorCode::BadValue)
                            } else if !self.has_row(col.c_ref, r) {
                                Some(ErrorCode::BadForeign)
                            } else {
                                None
                            }
                        },
                        _ => None,
                    }
                }
            },
        }
    }

    /// The error of the first value, from position `j` on, that cannot stand in its column.
    pub open spec fn first_bad(self, cols: Seq<Column>, vals: Seq<Value>, j: int) -> Option<
        ErrorCode,
    >
        decreases vals.len() - j,
    {
        if j < 0 || j >= vals.len() {
            None
        } else {
            match self.cell_error(cols[j], vals[j]) {
                Some(e) => Some(e),
                None => self.first_bad(cols, vals, j + 1),
            }
        }
    }

    /// The outcome of validating `vals` as a row of table `t`.
    pub open spec fn row_check(self, t: i32, vals: Seq<Value>) -> Result<(), ErrorCode> {
        if !self.has_table(t) {
            Err(ErrorCode::BadTable)
        } else if vals.len() != self.cols(t).len() {
            Err(ErrorCode::BadRow)
        } else {
            match self.first_bad(self.cols(t), vals, 0) {
                Some(e) => Err(e),
                None => Ok(()),
            }
        }
    }

    /// Every value has its column's type or is `Null`, and every foreign value
    /// names a row that exists in the table its column refers to.
    pub open spec fn values_fit(self, cols: Seq<Column>, vals: Seq<Value>) -> bool {
        &&& vals.len() == cols.len()
        &&& forall|j: int| 0 <= j < vals.len() ==> (#[trigger] self.cell_error(cols[j], vals[j])) is None
    }

    /// Row ids are unique and no greater than the table's counter, versions positive.
    pub open spec fn table_shape(self, t: i32) -> bool {
        let tb = self.table(t);
        &&& tb.row_count >= 0
        &&& tb.ids_unique()
        &&& forall|i: int|
            0 <= i < tb.content@.len() ==> {
                let e = #[trigger] tb.content@[i];
                &&& 1 <= e.0 <= tb.row_count
                &&& e.1.version >= 1
            }
    }

    pub open spec fn table_wf(self, t: i32) -> bool {
        let tb = self.table(t);
        &&& self.table_shape(t)
        &&& forall|i: int|
            0 <= i < tb.content@.len() ==> self.values_fit(
                tb.cols(),
                (#[trigger] tb.content@[i]).1.row_values@,
            )
    }

    /// Row `r1` of table `t1` holds `Foreign(r2)` in a column that refers to table `t2`.
    pub open spec fn refers(self, t1: i32, r1: i64, t2: i32, r2: i64) -> bool {
        &&& self.has_row(t1, r1)
        &&& exists|j: int|
            0 <= j < self.cols(t1).len() && j < self.row(t1, r1).row_values@.len()
                && self.cols(t1)[j].c_ref == t2 && #[trigger] self.row(t1, r1).row_values@[j]
                == Value::Foreign(r2)
    }

    /// Row `(t, r)` leads to row `(tt, tr)` by at most `n` references.
    pub open spec fn reaches(self, t: i32, r: i64, tt: i32, tr: i64, n: nat) -> bool
        decreases n,
    {
        (t == tt && r == tr) || (n > 0 && exists|t2: i32, r2: i64|
            #[trigger] self.refers(t, r, t2, r2) && self.reaches(t2, r2, tt, tr, (n - 1) as nat))
    }

    /// Row `(t, r)` refers to row `(tt, tr)` directly or through other rows, or is it.
    pub open spec fn depends_on(self, t: i32, r: i64, tt: i32, tr: i64) -> bool {
        exists|n: nat| #[trigger] self.reaches(t, r, tt, tr, n)
    }

    /// The invariant of the store: every table is well formed.
    pub open spec fn wf(self) -> bool {
        &&& self.tables@.len() <= i32::MAX
        &&& forall|t: i32| #[trigger] self.has_table(t) ==> self.table_wf(t)
    }
}

/// `first_bad` finds nothing exactly when every value from `j` on fits.
pub proof fn lemma_first_bad(db: Database, cols: Seq<Column>, vals: Seq<Value>, j: int)
    requires
        0 <= j <= vals.len(),
    ensures
        db.first_bad(cols, vals, j) is None <==> forall|k: int|
            j <= k < vals.len() ==> (#[trigger] db.cell_error(cols[k], vals[k])) is None,
    decreases vals.len() - j,
{
    if j < vals.len() {
        lemma_first_bad(db, cols, vals, j + 1);
    }
}

/// A row check succeeds exactly when the values fit the table.
pub proof fn lemma_row_check(db: Database, t: i32, vals: Seq<Value>)
    ensures
        db.row_check(t, vals) is Ok <==> db.has_table(t) && db.values_fit(db.cols(t), vals),
{
    lemma_first_bad(db, db.cols(t), vals, 0);
}

impl Database {
    /// A store with one empty table per schema, numbered from 1 in order.
    pub fn new(table_schema: Vec<Table>) -> (db: Database)
        requires
            table_schema@.len() <= i32::MAX,
        ensures
            db.wf(),
            db.tables@.len() == table_schema@.len(),
            forall|k: int|
                0 <= k < db.tables@.len() ==> {
                    &&& (#[trigger] db.tables@[k]).data == table_schema@[k]
                    &&& db.tables@[k].content@.len() == 0
                    &&& db.tables@[k].row_count == 0
                },
    {
        let mut tables: Vec<DTable> = Vec::new();
        let mut schema = table_schema;
        let ghost all = schema@;
        let mut rest: Vec<Table> = Vec::new();
        // take the schemas out from the back, then put the tables in order
        while schema.len() > 0
            invariant
                schema@ + rest@.reverse() == all,
            decreases schema@.len(),
        {
            let t = schema.pop().unwrap();
            rest.push(t);
            assert(schema@ + rest@.reverse() =~= all);
        }
        assert(rest@.reverse() =~= all);
        while rest.len() > 0
            invariant
                tables@.len() + rest@.len() == all.len(),
                forall|k: int| 0 <= k < rest@.len() ==> rest@[k] == all[all.len() - 1 - k],
                forall|k: int|
                    0 <= k < tables@.len() ==> {
                        &&& (#[trigger] tables@[k]).data == all[k]
                        &&& tables@[k].content@.len() == 0
                        &&& tables@[k].row_count == 0
                    },
            decreases rest@.len(),
        {
            let t = rest.pop().unwrap();
            tables.push(DTable { data: t, content: Vec::new(), row_count: 0 });
        }
        let db = Database { tables };
        assert forall|t: i32| #[trigger] db.has_table(t) implies db.table_wf(t) by {
            assert(db.tables@[t - 1].content@.len() == 0);
        }
        db
    }
}

/// Looks up row `id` in a table.
pub fn find_row(tb: &DTable, id: i64) -> (r: Option<usize>)
    ensures
        match r {
            Some(k) => k < tb.content@.len() && tb.content@[k as int].0 == id,
            None => !tb.has_id(id),
        },
{
    let mut i: usize = 0;
    while i < tb.content.len()
        invariant
            i <= tb.content@.len(),
            forall|k: int| 0 <= k < i ==> (#[trigger] tb.content@[k]).0 != id,
        decreases tb.content@.len() - i,
    {
        if tb.content[i].0 == id {
            return Some(i);
        }
        i = i + 1;
    }
    None
}

/// Succeeds when `table_id` names a table.
pub fn check_table(db: &Database, table_id: i32) -> (r: Result<(), ErrorCode>)
    ensures
        r is Ok <==> db.has_table(table_id),
        r is Err ==> r == Err::<(), ErrorCode>(ErrorCode::BadTable),
{
    if table_id < 1 || table_id as usize > db.tables.len() {
        return Err(ErrorCode::BadTable);
    }
    Ok(())
}

/// Whether a value may stand in a column, and if not, why.
pub fn check_cell(db: &Database, col: &Column, v: &Value) -> (r: Option<ErrorCode>)
    ensures
        r == db.cell_error(*col, *v),
{
    if let Value::Null = v {
        return None;
    }
    if v.value_type() != Some(col.c_type) {
        return Some(ErrorCode::BadValue);
    }
    match v {
        Value::Foreign(f) => {
            if col.c_ref == 0 {
                return Some(ErrorCode::BadValue);
            }
            if check_table(db, col.c_ref).is_err() {
                return Some(ErrorCode::BadForeign);
            }
            let ft = &db.tables[(col.c_ref - 1) as usize];
            if find_row(ft, *f).is_none() {
                return Some(ErrorCode::BadForeign);
            }
            None
        },
        _ => None,
    }
}

/// Validates `values` as a row of table `table_id`.
pub fn check_row(db: &Database, table_id: i32, values: &Vec<Value>) -> (r: Result<(), ErrorCode>)
    ensures
        r == db.row_check(table_id, values@),
{
    check_table(db, table_id)?;
    let col_list = &db.tables[(table_id - 1) as usize].data.t_cols;
    if values.len() != col_list.len() {
        return Err(ErrorCode::BadRow);
    }
    let ghost cols = db.cols(table_id);
    let mut i: usize = 0;
    while i < values.len()
        invariant
            i <= values@.len(),
            values@.len() == cols.len(),
            col_list@ == cols,
            cols == db.cols(table_id),
            db.has_table(table_id),
            db.first_bad(cols, values@, 0) == db.first_bad(cols, values@, i as int),
        decreases values@.len() - i,
    {
        match check_cell(db, &col_list[i], &values[i]) {
            Some(e) => {
                assert(db.first_bad(cols, values@, i as int) == Some(e));
                return Err(e);
            },
            None => {
                assert(db.first_bad(cols, values@, i as int) == db.first_bad(
                    cols,
                    values@,
                    i + 1,
                ));
            },
        }
        i = i + 1;
    }
    Ok(())
}

/// Validity of stored values only needs rows to exist, so it survives any
/// change that keeps every row that existed.
pub proof fn lemma_fit_grows(a: Database, b: Database, cols: Seq<Column>, vals: Seq<Value>)
    requires
        a.values_fit(cols, vals),
        forall|t: i32, r: i64| #[trigger] a.has_row(t, r) ==> b.has_row(t, r),
    ensures
        b.values_fit(cols, vals),
{
    assert forall|j: int| 0 <= j < vals.len() implies (#[trigger] b.cell_error(
        cols[j],
        vals[j],
    )) is None by {
        assert(a.cell_error(cols[j], vals[j]) is None);
        match vals[j] {
            Value::Foreign(r) => {
                assert(a.has_row(cols[j].c_ref, r));
            },
            _ => {},
        }
    }
}

/// Every row of a table that is well formed in `a` stays valid in `b` when
/// `b` keeps the table and every row of `a`.
pub proof fn lemma_table_wf_kept(a: Database, b: Database, t: i32)
    requires
        a.has_table(t),
        a.table_wf(t),
        b.has_table(t),
        b.table(t) == a.table(t),
        forall|u: i32, r: i64| #[trigger] a.has_row(u, r) ==> b.has_row(u, r),
    ensures
        b.table_wf(t),
{
    let tb = b.table(t);
    assert forall|i: int| 0 <= i < tb.content@.len() implies b.values_fit(
        tb.cols(),
        (#[trigger] tb.content@[i]).1.row_values@,
    ) by {
        lemma_fit_grows(a, b, tb.cols(), tb.content@[i].1.row_values@);
    }
}

/// What validating a row and then the object of an update gives.
pub open spec fn update_check(db: Database, t: i32, id: i64, version: i64, vals: Seq<Value>) -> Result<
    (),
    ErrorCode,
> {
    match db.row_check(t, vals) {
        Err(e) => Err(e),
        Ok(()) => {
            if !db.has_row(t, id) {
                Err(ErrorCode::NotFound)
            } else if version != 0 && version != db.row(t, id).version {
                Err(ErrorCode::TxnAbort)
            } else {
                Ok(())
            }
        },
    }
}

/// What a successful insert of `values` into table `t` does: the row goes in
/// under the next id, above every id present, at version 1.
pub open spec fn insert_effect(a: Database, b: Database, t: i32, values: Vec<Value>) -> bool {
    let ot = a.table(t);
    let id = ot.row_count + 1;
    &&& forall|i: int| 0 <= i < ot.content@.len() ==> (#[trigger] ot.content@[i]).0 < id
    &&& b.tables@.len() == a.tables@.len()
    &&& forall|k: int|
        0 <= k < a.tables@.len() && k != t - 1 ==> #[trigger] b.tables@[k] == a.tables@[k]
    &&& b.table(t).data == ot.data
    &&& b.table(t).row_count == id
    &&& b.table(t).content@ == ot.content@.push(
        (id as i64, (Row { version: 1, row_values: values })),
    )
}

/// What a successful update of row `id` of table `t` does: its values are
/// replaced and its version goes up by one; nothing else changes.
pub open spec fn update_effect(a: Database, b: Database, t: i32, id: i64, values: Vec<Value>) -> bool {
    let ot = a.table(t);
    let v = ot.row(id).version + 1;
    &&& b.tables@.len() == a.tables@.len()
    &&& forall|k: int|
        0 <= k < a.tables@.len() && k != t - 1 ==> #[trigger] b.tables@[k] == a.tables@[k]
    &&& b.table(t).data == ot.data
    &&& b.table(t).row_count == ot.row_count
    &&& b.table(t).content@ == ot.content@.update(
        ot.index_of(id),
        (id, (Row { version: v as i64, row_values: values })),
    )
}

/// What a successful drop of row `id` of table `t` does: exactly the rows that
/// depend on it go, the others stay unchanged.
pub open spec fn drop_effect(a: Database, b: Database, t: i32, id: i64) -> bool {
    &&& same_frame(a, b)
    &&& forall|u: i32, r: i64| #[trigger]
        b.has_row(u, r) <==> a.has_row(u, r) && !a.depends_on(u, r, t, id)
    &&& forall|u: i32, r: i64| #[trigger] b.has_row(u, r) ==> b.row(u, r) == a.row(u, r)
}

/// Inserts a row of `values` into table `table_id`, under the next row id and
/// at version 1.
pub fn handle_insert(db: &mut Database, table_id: i32, values: Vec<Value>) -> (r: Result<
    Response,
    ErrorCode,
>)
    requires
        old(db).wf(),
        old(db).has_table(table_id) ==> old(db).table(table_id).row_count < i64::MAX,
    ensures
        final(db).wf(),
        match old(db).row_check(table_id, values@) {
            Err(e) => r == Err::<Response, ErrorCode>(e) && *final(db) == *old(db),
            Ok(()) => r == Ok::<Response, ErrorCode>(
                Response::Insert((old(db).table(table_id).row_count + 1) as i64, 1),
            ) && insert_effect(*old(db), *final(db), table_id, values),
        },
{
    match check_row(db, table_id, &values) {
        Err(e) => {
            return Err(e);
        },
        Ok(()) => {},
    }
    let ghost old_db = *db;
    proof {
        lemma_row_check(old_db, table_id, values@);
        assert(old_db.table_wf(table_id));
    }
    let idx = (table_id - 1) as usize;
    let id = db.tables[idx].row_count + 1;
    db.tables[idx].row_count = id;
    db.tables[idx].content.push((id, Row { version: 1, row_values: values }));
    proof {
        let ot = old_db.table(table_id);
        let nt = db.table(table_id);
        assert(nt.content@ == ot.content@.push((id, Row { version: 1, row_values: values })));
        assert forall|t: i32, r: i64| #[trigger] old_db.has_row(t, r) implies db.has_row(t, r) by {
            if t == table_id {
                let i = choose|i: int| 0 <= i < ot.content@.len() && (#[trigger] ot.content@[i]).0 == r;
                assert(nt.content@[i] == ot.content@[i]);
            }
        }
        assert forall|t: i32| #[trigger] db.has_table(t) implies db.table_wf(t) by {
            assert(old_db.has_table(t));
            if t == table_id {
                assert forall|i: int| 0 <= i < nt.content@.len() implies db.values_fit(
                    nt.cols(),
                    (#[trigger] nt.content@[i]).1.row_values@,
                ) by {
                    if i < ot.content@.len() {
                        assert(nt.content@[i] == ot.content@[i]);
                        lemma_fit_grows(old_db, *db, ot.cols(), ot.content@[i].1.row_values@);
                    } else {
                        lemma_fit_grows(old_db, *db, ot.cols(), values@);
                    }
                }
                assert forall|i: int, j: int|
                    0 <= i < nt.content@.len() && 0 <= j < nt.content@.len() && i != j
                        implies (#[trigger] nt.content@[i]).0 != (#[trigger] nt.content@[j]).0 by {
                    if i < ot.content@.len() {
                        assert(nt.content@[i] == ot.content@[i]);
                    }
                    if j < ot.content@.len() {
                        assert(nt.content@[j] == ot.content@[j]);
                    }
                }
            } else {
                lemma_table_wf_kept(old_db, *db, t);
            }
        }
    }
    Ok(Response::Insert(id, 1))
}

/// Finds the object of an update and checks its version: 0 accepts any.
pub fn check_object(db: &Database, table_id: i32, object_id: i64, version: i64) -> (r: Result<
    usize,
    ErrorCode,
>)
    requires
        db.wf(),
        db.has_table(table_id),
    ensures
        !db.has_row(table_id, object_id) ==> r == Err::<usize, ErrorCode>(ErrorCode::NotFound),
        db.has_row(table_id, object_id) ==> {
            if version == 0 || version == db.row(table_id, object_id).version {
                &&& r is Ok
                &&& r->Ok_0 < db.table(table_id).content@.len()
                &&& db.table(table_id).content@[r->Ok_0 as int].0 == object_id
            } else {
                r == Err::<usize, ErrorCode>(ErrorCode::TxnAbort)
            }
        },
{
    let tb = &db.tables[(table_id - 1) as usize];
    match find_row(tb, object_id) {
        None => Err(ErrorCode::NotFound),
        Some(k) => {
            proof {
                assert(db.table_wf(table_id));
                lemma_index_of(*tb, k as int);
            }
            if version == 0 || tb.content[k].1.version == version {
                Ok(k)
            } else {
                Err(ErrorCode::TxnAbort)
            }
        },
    }
}

/// Replaces the values of row `object_id` and advances its version, when the
/// values are valid and `version` is 0 or the row's current version.
pub fn handle_update(
    db: &mut Database,
    table_id: i32,
    object_id: i64,
    version: i64,
    values: Vec<Value>,
) -> (r: Result<Response, ErrorCode>)
    requires
        old(db).wf(),
        old(db).has_row(table_id, object_id) ==> old(db).row(table_id, object_id).version
            < i64::MAX,
    ensures
        final(db).wf(),
        match update_check(*old(db), table_id, object_id, version, values@) {
            Err(e) => r == Err::<Response, ErrorCode>(e) && *final(db) == *old(db),
            Ok(()) => r == Ok::<Response, ErrorCode>(
                Response::Update((old(db).row(table_id, object_id).version + 1) as i64),
            ) && update_effect(*old(db), *final(db), table_id, object_id, values),
        },
{
    match check_row(db, table_id, &values) {
        Err(e) => {
            return Err(e);
        },
        Ok(()) => {},
    }
    let k = match check_object(db, table_id, object_id, version) {
        Err(e) => {
            return Err(e);
        },
        Ok(k) => k,
    };
    let ghost old_db = *db;
    proof {
        lemma_row_check(old_db, table_id, values@);
        assert(old_db.table_wf(table_id));
        lemma_index_of(old_db.table(table_id), k as int);
    }
    let idx = (table_id - 1) as usize;
    let v = db.tables[idx].content[k].1.version + 1;
    db.tables[idx].content.set(k, (object_id, Row { version: v, row_values: values }));
    proof {
        let ot = old_db.table(table_id);
        let nt = db.table(table_id);
        assert forall|t: i32, r: i64| #[trigger] old_db.has_row(t, r) implies db.has_row(t, r) by {
            if t == table_id {
                let i = choose|i: int| 0 <= i < ot.content@.len() && (#[trigger] ot.content@[i]).0 == r;
                assert(nt.content@[i].0 == ot.content@[i].0);
            }
        }
        assert forall|t: i32| #[trigger] db.has_table(t) implies db.table_wf(t) by {
            assert(old_db.has_table(t));
            if t == table_id {
                assert forall|i: int| 0 <= i < nt.content@.len() implies db.values_fit(
                    nt.cols(),
                    (#[trigger] nt.content@[i]).1.row_values@,
                ) by {
                    if i != k {
                        assert(nt.content@[i] == ot.content@[i]);
                        lemma_fit_grows(old_db, *db, ot.cols(), ot.content@[i].1.row_values@);
                    } else {
                        lemma_fit_grows(old_db, *db, ot.cols(), values@);
                    }
                }
                assert forall|i: int, j: int|
                    0 <= i < nt.content@.len() && 0 <= j < nt.content@.len() && i != j
                        implies (#[trigger] nt.content@[i]).0 != (#[trigger] nt.content@[j]).0 by {
                    assert(nt.content@[i].0 == ot.content@[i].0);
                    assert(nt.content@[j].0 == ot.content@[j].0);
                }
                assert forall|i: int| 0 <= i < nt.content@.len() implies {
                    let e = #[trigger] nt.content@[i];
                    &&& 1 <= e.0 <= nt.row_count
                    &&& e.1.version >= 1
                } by {
                    assert(nt.content@[i].0 == ot.content@[i].0);
                }
            } else {
                lemma_table_wf_kept(old_db, *db, t);
            }
        }
    }
    Ok(Response::Update(v))
}

/// Whether `resp` answers a get of `row`: its version and a copy of its values.
pub open spec fn is_get_of(resp: Response, row: Row) -> bool {
    match resp {
        Response::Get(v, vals) => v == row.version && vals@ == row.row_values@,
        _ => false,
    }
}

/// Reads row `object_id` of table `table_id`.
pub fn handle_get(db: &Database, table_id: i32, object_id: i64) -> (r: Result<Response, ErrorCode>)
    requires
        db.wf(),
    ensures
        !db.has_table(table_id) ==> r == Err::<Response, ErrorCode>(ErrorCode::BadTable),
        db.has_table(table_id) && !db.has_row(table_id, object_id) ==> r == Err::<
            Response,
            ErrorCode,
        >(ErrorCode::NotFound),
        db.has_row(table_id, object_id) ==> r is Ok && is_get_of(
            r->Ok_0,
            db.row(table_id, object_id),
        ),
{
    match check_table(db, table_id) {
        Err(e) => {
            return Err(e);
        },
        Ok(()) => {},
    }
    let tb = &db.tables[(table_id - 1) as usize];
    match find_row(tb, object_id) {
        None => Err(ErrorCode::NotFound),
        Some(k) => {
            proof {
                assert(db.table_wf(table_id));
                lemma_index_of(*tb, k as int);
            }
            let row = &tb.content[k].1;
            Ok(Response::Get(row.version, duplicate_values(&row.row_values)))
        },
    }
}

/// The checks of a query that do not depend on the rows: the operator, when
/// they pass.
pub open spec fn query_check(db: Database, t: i32, column: i32, op_code: i32, other: Value) -> Result<
    QueryOp,
    ErrorCode,
> {
    if !db.has_table(t) {
        Err(ErrorCode::BadTable)
    } else {
        match op_of_code(op_code) {
            None => Err(ErrorCode::BadQuery),
            Some(op) => {
                if column < 0 || column > db.cols(t).len() {
                    Err(ErrorCode::BadQuery)
                } else if other is Foreign && !(op is Eq || op is Ne) {
                    Err(ErrorCode::BadQuery)
                } else if op is All && column != 0 {
                    Err(ErrorCode::BadQuery)
                } else if column == 0 && !id_query_allowed(op, other) {
                    Err(ErrorCode::BadQuery)
                } else {
                    Ok(op)
                }
            },
        }
    }
}

/// Whether row `e` matches: on its id for column 0, else on its value in that
/// column (counted from 1); `None` when the pairing is not allowed.
pub open spec fn row_test(op: QueryOp, column: i32, other: Value, e: (i64, Row)) -> Option<bool> {
    if column == 0 {
        id_test(op, other, e.0)
    } else {
        cell_test(op, e.1.row_values@[column - 1], other)
    }
}

/// The ids of the first `n` rows that match, in order; `None` when one of
/// those rows cannot be compared.
pub open spec fn scan(content: Seq<(i64, Row)>, op: QueryOp, column: i32, other: Value, n: int) -> Option<
    Seq<i64>,
>
    decreases n,
{
    if n <= 0 {
        Some(Seq::empty())
    } else {
        match scan(content, op, column, other, n - 1) {
            None => None,
            Some(ids) => match row_test(op, column, other, content[n - 1]) {
                None => None,
                Some(true) => Some(ids.push(content[n - 1].0)),
                Some(false) => Some(ids),
            },
        }
    }
}

/// Once a row cannot be compared, the whole scan fails.
pub proof fn lemma_scan_none(
    content: Seq<(i64, Row)>,
    op: QueryOp,
    column: i32,
    other: Value,
    n: int,
    m: int,
)
    requires
        0 <= n <= m,
        scan(content, op, column, other, n) is None,
    ensures
        scan(content, op, column, other, m) is None,
    decreases m - n,
{
    if n < m {
        lemma_scan_none(content, op, column, other, n + 1, m);
    }
}

/// The outcome of a query on table `t`.
pub open spec fn query_result(db: Database, t: i32, column: i32, op_code: i32, other: Value) -> Result<
    Seq<i64>,
    ErrorCode,
> {
    match query_check(db, t, column, op_code, other) {
        Err(e) => Err(e),
        Ok(op) => match scan(db.table(t).content@, op, column, other, db.table(t).content@.len() as int) {
            None => Err(ErrorCode::BadQuery),
            Some(ids) => Ok(ids),
        },
    }
}

/// Ids of the rows of table `table_id` whose column `column_id` (0: the row id)
/// satisfies the operator against `other`, in storage order.
pub fn handle_query(db: &Database, table_id: i32, column_id: i32, operator: i32, other: Value) -> (r: Result<
    Response,
    ErrorCode,
>)
    requires
        db.wf(),
    ensures
        match query_result(*db, table_id, column_id, operator, other) {
            Err(e) => r == Err::<Response, ErrorCode>(e),
            Ok(ids) => r is Ok && (match r->Ok_0 {
                Response::Query(v) => v@ == ids,
                _ => false,
            }),
        },
{
    match check_table(db, table_id) {
        Err(e) => {
            return Err(e);
        },
        Ok(()) => {},
    }
    let op = match QueryOp::from_code(operator) {
        None => {
            return Err(ErrorCode::BadQuery);
        },
        Some(op) => op,
    };
    let table = &db.tables[(table_id - 1) as usize];
    let col_list = &table.data.t_cols;
    if column_id < 0 || column_id as usize > col_list.len() {
        return Err(ErrorCode::BadQuery);
    }
    match &other {
        Value::Foreign(_) => {
            if op != QueryOp::Eq && op != QueryOp::Ne {
                return Err(ErrorCode::BadQuery);
            }
        },
        _ => {},
    }
    if op == QueryOp::All && column_id != 0 {
        return Err(ErrorCode::BadQuery);
    }
    if column_id == 0 {
        let allowed = match &other {
            Value::Null => true,
            Value::Integer(_) => op == QueryOp::Eq || op == QueryOp::Ne,
            _ => false,
        };
        if !allowed {
            return Err(ErrorCode::BadQuery);
        }
    }
    proof {
        assert(db.table_wf(table_id));
        assert(query_check(*db, table_id, column_id, operator, other) == Ok::<QueryOp, ErrorCode>(
            op,
        ));
    }
    let ghost content = table.content@;
    let mut result: Vec<i64> = Vec::new();
    let mut i: usize = 0;
    while i < table.content.len()
        invariant
            i <= content.len(),
            content == table.content@,
            content == db.table(table_id).content@,
            db.table_wf(table_id),
            col_list@ == db.cols(table_id),
            0 <= column_id <= col_list@.len(),
            column_id == 0 ==> id_query_allowed(op, other),
            query_check(*db, table_id, column_id, operator, other) == Ok::<QueryOp, ErrorCode>(op),
            scan(content, op, column_id, other, i as int) == Some(result@),
        decreases content.len() - i,
    {
        let key = table.content[i].0;
        let hit = if column_id == 0 {
            test_id(op, &other, key)
        } else {
            let row = &table.content[i].1;
            assert(db.values_fit(db.cols(table_id), content[i as int].1.row_values@));
            let col_value = &row.row_values[(column_id - 1) as usize];
            match test_cell(op, col_value, &other) {
                Err(e) => {
                    proof {
                        assert(row_test(op, column_id, other, content[i as int]) is None);
                        assert(scan(content, op, column_id, other, i + 1) is None);
                        lemma_scan_none(content, op, column_id, other, i + 1, content.len() as int);
                    }
                    return Err(ErrorCode::BadQuery);
                },
                Ok(b) => b,
            }
        };
        if hit {
            result.push(key);
        }
        i = i + 1;
    }
    Ok(Response::Query(result))
}

/// The number of rows in all tables.
pub open spec fn total_rows(tables: Seq<DTable>) -> nat
    decreases tables.len(),
{
    if tables.len() == 0 {
        0
    } else {
        total_rows(tables.drop_last()) + tables.last().content@.len()
    }
}

proof fn lemma_total_rows_update(tables: Seq<DTable>, k: int, tb: DTable)
    requires
        0 <= k < tables.len(),
        tb.content@.len() + 1 == tables[k].content@.len(),
    ensures
        total_rows(tables.update(k, tb)) + 1 == total_rows(tables),
    decreases tables.len(),
{
    let u = tables.update(k, tb);
    if k == tables.len() - 1 {
        assert(u.drop_last() =~= tables.drop_last());
    } else {
        assert(u.drop_last() =~= tables.drop_last().update(k, tb));
        lemma_total_rows_update(tables.drop_last(), k, tb);
    }
}

/// Every table has its shape.
pub open spec fn all_shaped(db: Database) -> bool {
    forall|t: i32| #[trigger] db.has_table(t) ==> db.table_shape(t)
}

/// Tables, schemas and counters of `b` are those of `a`.
pub open spec fn same_frame(a: Database, b: Database) -> bool {
    &&& b.tables@.len() == a.tables@.len()
    &&& forall|k: int|
        0 <= k < a.tables@.len() ==> (#[trigger] b.tables@[k]).data == a.tables@[k].data
            && b.tables@[k].row_count == a.tables@[k].row_count
}

/// Removes row `id` from table `t`.
fn remove_row(db: &mut Database, t: i32, id: i64)
    requires
        old(db).has_row(t, id),
        all_shaped(*old(db)),
    ensures
        all_shaped(*final(db)),
        same_frame(*old(db), *final(db)),
        total_rows(final(db).tables@) + 1 == total_rows(old(db).tables@),
        forall|u: i32, r: i64|
            #[trigger] final(db).has_row(u, r) <==> old(db).has_row(u, r) && !(u == t && r == id),
        forall|u: i32, r: i64| #[trigger]
            final(db).has_row(u, r) ==> final(db).row(u, r) == old(db).row(u, r),
{
    let ghost o = *db;
    let idx = (t - 1) as usize;
    let k = match find_row(&db.tables[idx], id) {
        Some(k) => k,
        None => {
            return;
        },
    };
    let _ = db.tables[idx].content.remove(k);
    proof {
        let ot = o.table(t);
        let nt = db.table(t);
        assert(db.tables@ == o.tables@.update(t - 1, nt));
        lemma_total_rows_update(o.tables@, t - 1, nt);
        assert(o.table_shape(t));
        assert forall|i: int| 0 <= i < nt.content@.len() implies #[trigger] nt.content@[i] == ot.content@[
            if i < k { i } else { i + 1 }
        ] by {}
        assert forall|u: i32| #[trigger] db.has_table(u) implies db.table_shape(u) by {
            assert(o.has_table(u));
            if u == t {
                assert forall|i: int, j: int|
                    0 <= i < nt.content@.len() && 0 <= j < nt.content@.len() && i != j
                        implies (#[trigger] nt.content@[i]).0 != (#[trigger] nt.content@[j]).0 by {
                    assert(nt.content@[i] == ot.content@[if i < k { i } else { i + 1 }]);
                    assert(nt.content@[j] == ot.content@[if j < k { j } else { j + 1 }]);
                }
                assert forall|i: int| 0 <= i < nt.content@.len() implies {
                    let e = #[trigger] nt.content@[i];
                    &&& 1 <= e.0 <= nt.row_count
                    &&& e.1.version >= 1
                } by {
                    assert(nt.content@[i] == ot.content@[if i < k { i } else { i + 1 }]);
                }
            }
        }
        assert forall|u: i32, r: i64|
            #[trigger] db.has_row(u, r) <==> o.has_row(u, r) && !(u == t && r == id) by {
            if u == t {
                if db.has_row(u, r) {
                    let i = choose|i: int| 0 <= i < nt.content@.len() && (#[trigger] nt.content@[i]).0 == r;
                    let j = if i < k { i } else { i + 1 };
                    assert(nt.content@[i] == ot.content@[j]);
                    lemma_index_of(ot, j);
                    lemma_index_of(ot, k as int);
                }
                if o.has_row(u, r) && r != id {
                    let j = choose|j: int| 0 <= j < ot.content@.len() && (#[trigger] ot.content@[j]).0 == r;
                    let i = if j < k { j } else { j - 1 };
                    assert(nt.content@[i] == ot.content@[if i < k { i } else { i + 1 }]);
                }
            }
        }
        assert forall|u: i32, r: i64| #[trigger]
            db.has_row(u, r) implies db.row(u, r) == o.row(u, r) by {
            if u == t {
                let i = nt.index_of(r);
                let j = if i < k { i } else { i + 1 };
                assert(nt.content@[i] == ot.content@[j]);
                assert(db.table_shape(t));
                lemma_index_of(ot, j);
            }
        }
    }
}

/// Whether a row's values hold `Foreign(cid)` in a column that refers to table `ct`.
fn refers_to(cols: &Vec<Column>, vals: &Vec<Value>, ct: i32, cid: i64) -> (b: bool)
    ensures
        b == exists|j: int|
            0 <= j < cols@.len() && j < vals@.len() && cols@[j].c_ref == ct && #[trigger] vals@[j]
                == Value::Foreign(cid),
{
    let mut j: usize = 0;
    while j < cols.len() && j < vals.len()
        invariant
            forall|k: int|
                0 <= k < j ==> !(cols@[k].c_ref == ct && #[trigger] vals@[k] == Value::Foreign(cid)),
            j <= cols@.len(),
            j <= vals@.len(),
        decreases cols@.len() - j,
    {
        if cols[j].c_ref == ct {
            match &vals[j] {
                Value::Foreign(v) => {
                    if *v == cid {
                        return true;
                    }
                },
                _ => {},
            }
        }
        j = j + 1;
    }
    false
}

/// All rows that refer to row `cid` of table `ct`.
fn find_referrers(db: &Database, ct: i32, cid: i64) -> (found: Vec<(i32, i64)>)
    requires
        all_shaped(*db),
        db.tables@.len() <= i32::MAX,
    ensures
        forall|k: int| 0 <= k < found@.len() ==> db.refers(#[trigger] found@[k].0, found@[k].1, ct, cid),
        forall|t: i32, r: i64| #[trigger] db.refers(t, r, ct, cid) ==> found@.contains((t, r)),
{
    let mut found: Vec<(i32, i64)> = Vec::new();
    let mut u: usize = 0;
    while u < db.tables.len()
        invariant
            u <= db.tables@.len(),
            db.tables@.len() <= i32::MAX,
            all_shaped(*db),
            forall|k: int| 0 <= k < found@.len() ==> db.refers(#[trigger] found@[k].0, found@[k].1, ct, cid),
            forall|t: i32, r: i64| #[trigger] db.refers(t, r, ct, cid) && t <= u ==> found@.contains((t, r)),
        decreases db.tables@.len() - u,
    {
        let tb = &db.tables[u];
        let t = (u + 1) as i32;
        proof {
            assert(db.has_table(t));
        }
        let mut i: usize = 0;
        while i < tb.content.len()
            invariant
                i <= tb.content@.len(),
                *tb == db.table(t),
                t == u + 1,
                db.has_table(t),
                db.table_shape(t),
                forall|k: int| 0 <= k < found@.len() ==> db.refers(#[trigger] found@[k].0, found@[k].1, ct, cid),
                forall|tt: i32, r: i64| #[trigger] db.refers(tt, r, ct, cid) && tt < t ==> found@.contains((tt, r)),
                forall|k: int| 0 <= k < i && db.refers(t, (#[trigger] tb.content@[k]).0, ct, cid)
                    ==> found@.contains((t, tb.content@[k].0)),
            decreases tb.content@.len() - i,
        {
            let id = tb.content[i].0;
            proof {
                lemma_index_of(*tb, i as int);
            }
            let ghost prev = found@;
            if refers_to(&tb.data.t_cols, &tb.content[i].1.row_values, ct, cid) {
                found.push((t, id));
                proof {
                    assert(found@[found@.len() - 1] == (t, id));
                }
            }
            proof {
                assert forall|x: (i32, i64)| prev.contains(x) implies found@.contains(x) by {
                    let m = choose|m: int| 0 <= m < prev.len() && prev[m] == x;
                    assert(found@[m] == x);
                }
                if db.refers(t, id, ct, cid) {
                    assert(found@[found@.len() - 1] == (t, id));
                }
            }
            proof {
                assert forall|k: int| 0 <= k < found@.len() implies db.refers(#[trigger] found@[k].0, found@[k].1, ct, cid) by {}
            }
            i = i + 1;
        }
        proof {
            assert forall|tt: i32, r: i64| #[trigger] db.refers(tt, r, ct, cid) && tt <= u + 1 implies found@.contains((tt, r)) by {
                if tt == t {
                    let k = tb.index_of(r);
                    assert(tb.content@[k].0 == r);
                }
            }
        }
        u = u + 1;
    }
    found
}

/// In a well-formed store a row that is referred to exists.
pub proof fn lemma_referred_exists(db: Database, t: i32, r: i64, t2: i32, r2: i64)
    requires
        db.wf(),
        db.refers(t, r, t2, r2),
    ensures
        db.has_row(t2, r2),
{
    let tb = db.table(t);
    assert(db.table_wf(t));
    let k = tb.index_of(r);
    lemma_index_of(tb, k);
    assert(db.values_fit(tb.cols(), tb.content@[k].1.row_values@));
    let j = choose|j: int|
        0 <= j < db.cols(t).len() && j < db.row(t, r).row_values@.len() && db.cols(t)[j].c_ref
            == t2 && #[trigger] db.row(t, r).row_values@[j] == Value::Foreign(r2);
    assert(db.cell_error(db.cols(t)[j], db.row(t, r).row_values@[j]) is None);
}

/// `b` keeps the rows of `a` that are not in `removed`, unchanged, and no kept
/// row refers to a removed one.
pub open spec fn closed_removal(a: Database, b: Database, removed: Set<(i32, i64)>) -> bool {
    &&& same_frame(a, b)
    &&& all_shaped(b)
    &&& forall|t: i32, r: i64| #[trigger] b.has_row(t, r) <==> a.has_row(t, r) && !removed.contains((t, r))
    &&& forall|t: i32, r: i64| #[trigger] b.has_row(t, r) ==> b.row(t, r) == a.row(t, r)
    &&& forall|t1: i32, r1: i64, t2: i32, r2: i64|
        b.has_row(t1, r1) && #[trigger] a.refers(t1, r1, t2, r2) ==> !removed.contains((t2, r2))
}

/// Removing a set of rows that no kept row refers to leaves a well-formed store.
pub proof fn lemma_closed_removal_wf(a: Database, b: Database, removed: Set<(i32, i64)>)
    requires
        a.wf(),
        closed_removal(a, b, removed),
    ensures
        b.wf(),
{
    assert forall|t: i32| #[trigger] b.has_table(t) implies b.table_wf(t) by {
        assert(a.has_table(t));
        assert(a.table_wf(t));
        assert(b.table_shape(t));
        let tb = b.table(t);
        assert forall|i: int| 0 <= i < tb.content@.len() implies b.values_fit(
            tb.cols(),
            (#[trigger] tb.content@[i]).1.row_values@,
        ) by {
            let r = tb.content@[i].0;
            lemma_index_of(tb, i);
            assert(b.has_row(t, r));
            let ta = a.table(t);
            let k = ta.index_of(r);
            lemma_index_of(ta, k);
            let vals = tb.content@[i].1.row_values@;
            assert(vals == a.row(t, r).row_values@);
            assert(a.values_fit(ta.cols(), ta.content@[k].1.row_values@));
            assert forall|j: int| 0 <= j < vals.len() implies (#[trigger] b.cell_error(
                tb.cols()[j],
                vals[j],
            )) is None by {
                assert(a.cell_error(ta.cols()[j], vals[j]) is None);
                match vals[j] {
                    Value::Foreign(r2) => {
                        let t2 = tb.cols()[j].c_ref;
                        assert(a.refers(t, r, t2, r2));
                        assert(a.has_row(t2, r2));
                        assert(b.has_row(t2, r2));
                    },
                    _ => {},
                }
            }
        }
    }
}

/// After a closed removal that took `(tt, tr)`, no kept row depends on it.
pub proof fn lemma_kept_independent(
    a: Database,
    b: Database,
    removed: Set<(i32, i64)>,
    tt: i32,
    tr: i64,
    t: i32,
    r: i64,
    n: nat,
)
    requires
        a.wf(),
        closed_removal(a, b, removed),
        removed.contains((tt, tr)),
        b.has_row(t, r),
    ensures
        !a.reaches(t, r, tt, tr, n),
    decreases n,
{
    if a.reaches(t, r, tt, tr, n) {
        if !(t == tt && r == tr) {
            let (t2, r2) = choose|t2: i32, r2: i64|
                #[trigger] a.refers(t, r, t2, r2) && a.reaches(t2, r2, tt, tr, (n - 1) as nat);
            lemma_referred_exists(a, t, r, t2, r2);
            assert(!removed.contains((t2, r2)));
            assert(b.has_row(t2, r2));
            lemma_kept_independent(a, b, removed, tt, tr, t2, r2, (n - 1) as nat);
        }
    }
}

/// Whether row `id` of table `t` exists.
pub fn row_exists(db: &Database, t: i32, id: i64) -> (b: bool)
    ensures
        b == db.has_row(t, id),
{
    if check_table(db, t).is_err() {
        return false;
    }
    find_row(&db.tables[(t - 1) as usize], id).is_some()
}

/// Removes row `object_id` of table `table_id` together with every row that
/// depends on it, so that no reference is left dangling.
pub fn handle_drop(db: &mut Database, table_id: i32, object_id: i64) -> (r: Result<
    Response,
    ErrorCode,
>)
    requires
        old(db).wf(),
    ensures
        final(db).wf(),
        !old(db).has_table(table_id) ==> r == Err::<Response, ErrorCode>(ErrorCode::BadTable)
            && *final(db) == *old(db),
        old(db).has_table(table_id) && !old(db).has_row(table_id, object_id) ==> r == Err::<
            Response,
            ErrorCode,
        >(ErrorCode::NotFound) && *final(db) == *old(db),
        old(db).has_row(table_id, object_id) ==> r == Ok::<Response, ErrorCode>(Response::Drop)
            && drop_effect(*old(db), *final(db), table_id, object_id),
{
    match check_table(db, table_id) {
        Err(e) => {
            return Err(e);
        },
        Ok(()) => {},
    }
    if !row_exists(db, table_id, object_id) {
        return Err(ErrorCode::NotFound);
    }
    let ghost o = *db;
    proof {
        assert forall|t: i32| #[trigger] o.has_table(t) implies o.table_shape(t) by {
            assert(o.table_wf(t));
        }
        assert(o.reaches(table_id, object_id, table_id, object_id, 0));
    }
    remove_row(db, table_id, object_id);
    let ghost mut removed: Set<(i32, i64)> = Set::empty().insert((table_id, object_id));
    let mut work: Vec<(i32, i64)> = Vec::new();
    work.push((table_id, object_id));
    proof {
        assert(work@[0] == (table_id, object_id));
        assert(work@.contains((table_id, object_id)));
    }
    while work.len() > 0
        invariant
            o.wf(),
            all_shaped(*db),
            same_frame(o, *db),
            forall|t: i32, r: i64| #[trigger] db.has_row(t, r) <==> o.has_row(t, r) && !removed.contains((t, r)),
            forall|t: i32, r: i64| #[trigger] db.has_row(t, r) ==> db.row(t, r) == o.row(t, r),
            forall|x: (i32, i64)| #[trigger]
                removed.contains(x) ==> o.has_row(x.0, x.1) && o.depends_on(x.0, x.1, table_id, object_id),
            forall|t1: i32, r1: i64, t2: i32, r2: i64|
                db.has_row(t1, r1) && #[trigger] o.refers(t1, r1, t2, r2) && removed.contains((t2, r2))
                    ==> work@.contains((t2, r2)),
            forall|k: int| 0 <= k < work@.len() ==> removed.contains(#[trigger] work@[k]),
            removed.contains((table_id, object_id)),
        decreases 2 * total_rows(db.tables@) + work@.len(),
    {
        let ghost measure = 2 * total_rows(db.tables@) + work@.len();
        let ghost before = work@;
        let (ct, cid) = work.pop().unwrap();
        proof {
            assert(before == work@.push((ct, cid)));
            assert(removed.contains(before[before.len() - 1]));
        }
        let found = find_referrers(db, ct, cid);
        let ghost d0 = *db;
        proof {
            assert forall|k: int| 0 <= k < found@.len() implies o.refers(
                #[trigger] found@[k].0,
                found@[k].1,
                ct,
                cid,
            ) by {
                assert(d0.refers(found@[k].0, found@[k].1, ct, cid));
                assert(d0.row(found@[k].0, found@[k].1) == o.row(found@[k].0, found@[k].1));
            }
            assert forall|t1: i32, r1: i64, t2: i32, r2: i64|
                db.has_row(t1, r1) && #[trigger] o.refers(t1, r1, t2, r2) && removed.contains((t2, r2))
                    && (t2, r2) != (ct, cid) implies work@.contains((t2, r2)) by {
                assert(before.contains((t2, r2)));
                let m = choose|m: int| 0 <= m < before.len() && before[m] == (t2, r2);
                assert(work@[m] == (t2, r2));
            }
            assert forall|t1: i32, r1: i64| db.has_row(t1, r1) && #[trigger] o.refers(t1, r1, ct, cid)
                implies found@.contains((t1, r1)) by {
                assert(d0.refers(t1, r1, ct, cid));
            }
        }
        let mut j: usize = 0;
        while j < found.len()
            invariant
                o.wf(),
                all_shaped(*db),
                same_frame(o, *db),
                j <= found@.len(),
                forall|t: i32, r: i64| #[trigger] db.has_row(t, r) <==> o.has_row(t, r) && !removed.contains((t, r)),
                forall|t: i32, r: i64| #[trigger] db.has_row(t, r) ==> db.row(t, r) == o.row(t, r),
                forall|x: (i32, i64)| #[trigger]
                    removed.contains(x) ==> o.has_row(x.0, x.1) && o.depends_on(x.0, x.1, table_id, object_id),
                forall|t1: i32, r1: i64, t2: i32, r2: i64|
                    db.has_row(t1, r1) && #[trigger] o.refers(t1, r1, t2, r2) && removed.contains((t2, r2))
                        && (t2, r2) != (ct, cid) ==> work@.contains((t2, r2)),
                forall|t1: i32, r1: i64| db.has_row(t1, r1) && #[trigger] o.refers(t1, r1, ct, cid)
                    ==> found@.contains((t1, r1)),
                forall|k: int| 0 <= k < j ==> !db.has_row(#[trigger] found@[k].0, found@[k].1),
                forall|k: int| 0 <= k < found@.len() ==> o.refers(#[trigger] found@[k].0, found@[k].1, ct, cid),
                forall|k: int| 0 <= k < work@.len() ==> removed.contains(#[trigger] work@[k]),
                removed.contains((ct, cid)),
                removed.contains((table_id, object_id)),
                2 * total_rows(db.tables@) + work@.len() < measure,
            decreases found@.len() - j,
        {
            let (ft, fid) = found[j];
            if row_exists(db, ft, fid) {
                let ghost w1 = work@;
                remove_row(db, ft, fid);
                work.push((ft, fid));
                proof {
                    assert(o.refers(ft, fid, ct, cid));
                    let n = choose|n: nat| #[trigger] o.reaches(ct, cid, table_id, object_id, n);
                    assert(o.reaches(ft, fid, table_id, object_id, n + 1));
                    removed = removed.insert((ft, fid));
                    assert forall|x: (i32, i64)| w1.contains(x) implies work@.contains(x) by {
                        let m = choose|m: int| 0 <= m < w1.len() && w1[m] == x;
                        assert(work@[m] == x);
                    }
                    assert(work@[work@.len() - 1] == (ft, fid));
                }
            }
            j = j + 1;
        }
        proof {
            assert forall|t1: i32, r1: i64, t2: i32, r2: i64|
                db.has_row(t1, r1) && #[trigger] o.refers(t1, r1, t2, r2) && removed.contains((t2, r2))
                    implies work@.contains((t2, r2)) by {
                if (t2, r2) == (ct, cid) {
                    assert(found@.contains((t1, r1)));
                    let m = choose|m: int| 0 <= m < found@.len() && found@[m] == (t1, r1);
                    assert(!db.has_row(found@[m].0, found@[m].1));
                }
            }
        }
    }
    proof {
        assert(closed_removal(o, *db, removed));
        lemma_closed_removal_wf(o, *db, removed);
        assert forall|t: i32, rr: i64| #[trigger]
            db.has_row(t, rr) <==> o.has_row(t, rr) && !o.depends_on(t, rr, table_id, object_id) by {
            if db.has_row(t, rr) {
                if o.depends_on(t, rr, table_id, object_id) {
                    let n = choose|n: nat| #[trigger] o.reaches(t, rr, table_id, object_id, n);
                    lemma_kept_independent(o, *db, removed, table_id, object_id, t, rr, n);
                }
            }
        }
    }
    Ok(Response::Drop)
}

impl Database {
    /// The counters that a request would advance are below `i64::MAX`.
    pub open spec fn has_room(self, request: Request) -> bool {
        match request.command {
            Command::Insert(_) => self.has_table(request.table_id) ==> self.table(
                request.table_id,
            ).row_count < i64::MAX,
            Command::Update(id, _, _) => self.has_row(request.table_id, id) ==> self.row(
                request.table_id,
                id,
            ).version < i64::MAX,
            _ => true,
        }
    }

    /// Tells whether a request would overflow a row id or version counter.
    pub fn room_for(&self, request: &Request) -> (b: bool)
        requires
            self.wf(),
        ensures
            b == self.has_room(*request),
    {
        let t = request.table_id;
        match &request.command {
            Command::Insert(_) => {
                if check_table(self, t).is_err() {
                    return true;
                }
                self.tables[(t - 1) as usize].row_count < i64::MAX
            },
            Command::Update(id, _, _) => {
                if check_table(self, t).is_err() {
                    return true;
                }
                let tb = &self.tables[(t - 1) as usize];
                match find_row(tb, *id) {
                    None => true,
                    Some(k) => {
                        proof {
                            assert(self.table_wf(t));
                            lemma_index_of(*tb, k as int);
                        }
                        tb.content[k].1.version < i64::MAX
                    },
                }
            },
            _ => true,
        }
    }
}

/// The response to a request, and what it does to the store.
pub open spec fn request_outcome(a: Database, b: Database, request: Request, resp: Response) -> bool {
    let t = request.table_id;
    match request.command {
        Command::Insert(vals) => match a.row_check(t, vals@) {
            Err(e) => resp == Response::Error(e) && b == a,
            Ok(()) => resp == Response::Insert((a.table(t).row_count + 1) as i64, 1)
                && insert_effect(a, b, t, vals),
        },
        Command::Update(id, version, vals) => match update_check(a, t, id, version, vals@) {
            Err(e) => resp == Response::Error(e) && b == a,
            Ok(()) => resp == Response::Update((a.row(t, id).version + 1) as i64)
                && update_effect(a, b, t, id, vals),
        },
        Command::Drop(id) => {
            if !a.has_table(t) {
                resp == Response::Error(ErrorCode::BadTable) && b == a
            } else if !a.has_row(t, id) {
                resp == Response::Error(ErrorCode::NotFound) && b == a
            } else {
                resp == Response::Drop && drop_effect(a, b, t, id)
            }
        },
        Command::Get(id) => b == a && if !a.has_table(t) {
            resp == Response::Error(ErrorCode::BadTable)
        } else if !a.has_row(t, id) {
            resp == Response::Error(ErrorCode::NotFound)
        } else {
            is_get_of(resp, a.row(t, id))
        },
        Command::Query(column, op, other) => b == a && match query_result(a, t, column, op, other) {
            Err(e) => resp == Response::Error(e),
            Ok(ids) => match resp {
                Response::Query(v) => v@ == ids,
                _ => false,
            },
        },
        Command::Exit => b == a && resp == Response::Error(ErrorCode::Unimplemented),
    }
}

/// Carries out one request on the store and gives the response to send back.
pub fn handle_request(request: Request, db: &mut Database) -> (resp: Response)
    requires
        old(db).wf(),
        old(db).has_room(request),
    ensures
        final(db).wf(),
        request_outcome(*old(db), *final(db), request, resp),
{
    let table_id = request.table_id;
    let result = match request.command {
        Command::Insert(values) => handle_insert(db, table_id, values),
        Command::Update(id, version, values) => handle_update(db, table_id, id, version, values),
        Command::Drop(id) => handle_drop(db, table_id, id),
        Command::Get(id) => handle_get(db, table_id, id),
        Command::Query(column_id, operator, value) => handle_query(
            db,
            table_id,
            column_id,
            operator,
            value,
        ),
        Command::Exit => Err(ErrorCode::Unimplemented),
    };
    match result {
        Ok(response) => response,
        Err(code) => Response::Error(code),
    }
}

} // verus!
