use vstd::prelude::*;
use crate::search::{first_index, string_views, find_string};
use crate::table::{fits, Column, ColumnKind, Decimal, Field, MemoryDb, Table};

verus! {

/// The declared type of a column, as the dump spells it.
#[derive(Debug, Clone, Copy, PartialEq, Eq, Structural)]
pub enum SqlType {
    Real,
    Double,
    DoublePrecision,
    Float,
    Integer,
    SmallInt,
    Custom,
    Varchar,
    Date,
    Other,
}

/// One column of a `CREATE TABLE` statement.
#[derive(Debug, PartialEq, Eq)]
pub struct ColumnSpec {
    pub name: String,
    pub data_type: SqlType,
    pub not_null: bool,
}

/// A literal of a `VALUES` list.
#[derive(Debug, PartialEq, Eq)]
pub enum SqlValue {
    Null,
    /// An unsigned numeric literal.
    Number(String),
    /// A numeric literal behind a unary minus.
    Negative(String),
    SingleQuoted(String),
    /// Any other expression.
    Other,
}

/// The statements of a registry dump that the store acts on.
#[derive(Debug, PartialEq, Eq)]
pub enum Statement {
    CreateTable { name: String, columns: Vec<ColumnSpec> },
    /// `INSERT INTO table (column_list) VALUES rows`; `column_list` is empty where the
    /// statement names none.
    Insert { table: String, column_list: Vec<String>, rows: Vec<Vec<SqlValue>> },
    StartTransaction,
    Commit,
    /// `DROP TABLE IF EXISTS names`.
    DropTables { names: Vec<String> },
    /// Anything else: reported by the caller and otherwise ignored.
    Other,
}

/// Why a statement could not be applied.
#[derive(Debug, Clone, Copy, PartialEq, Eq, Structural)]
pub enum ReadError {
    /// A column type that the store cannot hold.
    UnsupportedType,
    /// An insert into a table that does not exist.
    UnknownTable,
    /// A row that does not fit the table: without a column list, a width
    /// other than the table's; with one, a named column past the row's end;
    /// or a value that its column's type cannot take.
    MalformedRow,
}

/// The kind of column that a declared type gives.
pub open spec fn kind_for(ty: SqlType, not_null: bool) -> Option<ColumnKind> {
    match ty {
        SqlType::Real | SqlType::Double | SqlType::DoublePrecision | SqlType::Float => if not_null {
            Some(ColumnKind::Double)
        } else {
            Some(ColumnKind::MaybeDouble)
        },
        SqlType::Integer | SqlType::SmallInt => if not_null {
            Some(ColumnKind::Int)
        } else {
            Some(ColumnKind::MaybeInt)
        },
        SqlType::Varchar | SqlType::Date => if not_null {
            Some(ColumnKind::Text)
        } else {
            Some(ColumnKind::MaybeText)
        },
        SqlType::Custom => if not_null {
            Some(ColumnKind::Int)
        } else {
            Some(ColumnKind::MaybeInt)
        },
        SqlType::Other => None,
    }
}

pub fn column_kind(ty: SqlType, not_null: bool) -> (r: Option<ColumnKind>)
    ensures
        r == kind_for(ty, not_null),
{
    match ty {
        SqlType::Real | SqlType::Double | SqlType::DoublePrecision | SqlType::Float => if not_null {
            Some(ColumnKind::Double)
        } else {
            Some(ColumnKind::MaybeDouble)
        },
        SqlType::Integer | SqlType::SmallInt => if not_null {
            Some(ColumnKind::Int)
        } else {
            Some(ColumnKind::MaybeInt)
        },
        SqlType::Varchar | SqlType::Date => if not_null {
            Some(ColumnKind::Text)
        } else {
            Some(ColumnKind::MaybeText)
        },
        SqlType::Custom => if not_null {
            Some(ColumnKind::Int)
        } else {
            Some(ColumnKind::MaybeInt)
        },
        SqlType::Other => None,
    }
}

pub open spec fn is_digit(c: char) -> bool {
    '0' <= c && c <= '9'
}

/// The number that a string of decimal digits writes.
pub open spec fn digits_value(s: Seq<char>) -> int
    decreases s.len(),
{
    if s.len() == 0 {
        0
    } else {
        digits_value(s.drop_last()) * 10 + ((s.last() as u32) - ('0' as u32))
    }
}

pub open spec fn all_digits(s: Seq<char>) -> bool {
    s.len() > 0 && forall|i: int| 0 <= i < s.len() ==> is_digit(#[trigger] s[i])
}

/// A non-empty string of decimal digits whose value fits in an `i64`.
pub open spec fn parse_int(s: Seq<char>) -> Option<i64> {
    if all_digits(s) && digits_value(s) <= i64::MAX {
        Some(digits_value(s) as i64)
    } else {
        None
    }
}

/// The negation of a non-empty string of decimal digits, where it fits in an `i64`.
pub open spec fn parse_neg_int(s: Seq<char>) -> Option<i64> {
    if all_digits(s) && digits_value(s) <= i64::MAX + 1 {
        Some((-digits_value(s)) as i64)
    } else {
        None
    }
}

proof fn lemma_digits_value_grows(s: Seq<char>, i: int)
    requires
        0 <= i <= s.len(),
        forall|q: int| 0 <= q < s.len() ==> is_digit(#[trigger] s[q]),
    ensures
        0 <= digits_value(s.subrange(0, i)) <= digits_value(s),
    decreases s.len(),
{
    if s.len() == 0 {
        assert(s.subrange(0, i) == s);
    } else {
        let d = s.drop_last();
        assert forall|q: int| 0 <= q < d.len() implies is_digit(#[trigger] d[q]) by {
            assert(d[q] == s[q]);
        }
        assert(is_digit(s.last()));
        if i == s.len() {
            assert(s.subrange(0, i) == s);
            lemma_digits_value_grows(d, 0);
        } else {
            lemma_digits_value_grows(d, i);
            assert(d.subrange(0, i) == s.subrange(0, i));
        }
    }
}

/// The value of a string of decimal digits, where it is at most `limit`.
fn parse_magnitude(s: &str, limit: u64) -> (r: Option<u64>)
    ensures
        r == (if all_digits(s@) && digits_value(s@) <= limit { Some(digits_value(s@) as u64) } else { None::<u64> }),
        r matches Some(v) ==> v as int == digits_value(s@) && v <= limit,
{
    let n = s.unicode_len();
    if n == 0 {
        return None;
    }
    let mut acc: u64 = 0;
    let mut i: usize = 0;
    while i < n
        invariant
            n == s@.len(),
            i <= n,
            forall|q: int| 0 <= q < i ==> is_digit(#[trigger] s@[q]),
            acc as int == digits_value(s@.subrange(0, i as int)),
            acc <= limit,
        decreases n - i,
    {
        let c = s.get_char(i);
        if !('0' <= c && c <= '9') {
            return None;
        }
        let d = ((c as u32) - ('0' as u32)) as u64;
        assert(s@.subrange(0, i + 1).drop_last() == s@.subrange(0, i as int));
        if d > limit || acc > (limit - d) / 10 {
            proof {
                assert(acc * 10 + d > limit) by (nonlinear_arith)
                    requires d > limit || acc > (limit - d) / 10, 0 <= d <= 9, acc >= 0, limit >= 0;
                let t = s@;
                if forall|q: int| 0 <= q < t.len() ==> is_digit(#[trigger] t[q]) {
                    lemma_digits_value_grows(t, i + 1);
                }
            }
            return None;
        }
        assert(acc * 10 + d <= limit) by (nonlinear_arith)
            requires acc <= (limit - d) / 10, 0 <= d <= limit, acc >= 0;
        acc = acc * 10 + d;
        i = i + 1;
    }
    assert(s@.subrange(0, n as int) == s@);
    Some(acc)
}

/// Reads a numeric literal as an integer.
pub fn parse_integer(s: &str) -> (r: Option<i64>)
    ensures
        r == parse_int(s@),
{
    match parse_magnitude(s, 9223372036854775807u64) {
        Some(v) => {
            assert(v as int == digits_value(s@) && v <= 9223372036854775807u64);
            Some(v as i64)
        },
        None => None,
    }
}

/// Reads a numeric literal behind a unary minus as the negated integer.
pub fn parse_negated_integer(s: &str) -> (r: Option<i64>)
    ensures
        r == parse_neg_int(s@),
{
    match parse_magnitude(s, 9223372036854775808u64) {
        Some(v) => {
            assert(v as int == digits_value(s@) && v <= 9223372036854775808u64);
            if v == 9223372036854775808u64 {
                Some(i64::MIN)
            } else {
                let w = v as i64;
                assert(w as int == digits_value(s@));
                Some(-w)
            }
        },
        None => None,
    }
}

/// The cell that a literal gives in a column of the given kind; `None` where
/// the column cannot take it.
pub open spec fn accept(kind: ColumnKind, v: SqlValue) -> Option<Option<Field>> {
    match (kind, v) {
        (ColumnKind::MaybeText, SqlValue::Null) => Some(None),
        (ColumnKind::MaybeInt, SqlValue::Null) => Some(None),
        (ColumnKind::MaybeDouble, SqlValue::Null) => Some(None),
        (ColumnKind::Int, SqlValue::Number(n)) => match parse_int(n@) {
            Some(x) => Some(Some(Field::IntLike(x))),
            None => None,
        },
        (ColumnKind::MaybeInt, SqlValue::Number(n)) => match parse_int(n@) {
            Some(x) => Some(Some(Field::IntLike(x))),
            None => None,
        },
        (ColumnKind::Int, SqlValue::Negative(n)) => match parse_neg_int(n@) {
            Some(x) => Some(Some(Field::IntLike(x))),
            None => None,
        },
        (ColumnKind::MaybeInt, SqlValue::Negative(n)) => match parse_neg_int(n@) {
            Some(x) => Some(Some(Field::IntLike(x))),
            None => None,
        },
        (ColumnKind::Text, SqlValue::SingleQuoted(s)) => Some(Some(Field::StringLike(s))),
        (ColumnKind::MaybeText, SqlValue::SingleQuoted(s)) => Some(Some(Field::StringLike(s))),
        (ColumnKind::Double, SqlValue::Number(n)) => Some(
            Some(Field::Double(Decimal { negative: false, digits: n })),
        ),
        (ColumnKind::Double, SqlValue::Negative(n)) => Some(
            Some(Field::Double(Decimal { negative: true, digits: n })),
        ),
        (ColumnKind::MaybeDouble, SqlValue::Number(n)) => Some(
            Some(Field::Double(Decimal { negative: false, digits: n })),
        ),
        (ColumnKind::MaybeDouble, SqlValue::Negative(n)) => Some(
            Some(Field::Double(Decimal { negative: true, digits: n })),
        ),
        _ => None,
    }
}

/// Turns a literal into the cell that a column of the given kind stores.
pub fn accept_value(kind: ColumnKind, v: &SqlValue) -> (r: Option<Option<Field>>)
    ensures
        r == accept(kind, *v),
        r matches Some(c) ==> fits(kind, c),
{
    match (kind, v) {
        (ColumnKind::MaybeText, SqlValue::Null) => Some(None),
        (ColumnKind::MaybeInt, SqlValue::Null) => Some(None),
        (ColumnKind::MaybeDouble, SqlValue::Null) => Some(None),
        (ColumnKind::Int, SqlValue::Number(n)) | (ColumnKind::MaybeInt, SqlValue::Number(n)) => {
            match parse_integer(n.as_str()) {
                Some(x) => Some(Some(Field::IntLike(x))),
                None => None,
            }
        },
        (ColumnKind::Int, SqlValue::Negative(n)) | (ColumnKind::MaybeInt, SqlValue::Negative(n)) => {
            match parse_negated_integer(n.as_str()) {
                Some(x) => Some(Some(Field::IntLike(x))),
                None => None,
            }
        },
        (ColumnKind::Text, SqlValue::SingleQuoted(s)) | (
            ColumnKind::MaybeText,
            SqlValue::SingleQuoted(s),
        ) => Some(Some(Field::StringLike(s.clone()))),
        (ColumnKind::Double, SqlValue::Number(n)) | (ColumnKind::MaybeDouble, SqlValue::Number(n)) => {
            Some(Some(Field::Double(Decimal { negative: false, digits: n.clone() })))
        },
        (ColumnKind::Double, SqlValue::Negative(n)) | (
            ColumnKind::MaybeDouble,
            SqlValue::Negative(n),
        ) => Some(Some(Field::Double(Decimal { negative: true, digits: n.clone() }))),
        _ => None,
    }
}

pub open spec fn spec_names(cols: Seq<ColumnSpec>) -> Seq<Seq<char>> {
    cols.map_values(|c: ColumnSpec| c.name@)
}

pub open spec fn all_supported(cols: Seq<ColumnSpec>) -> bool {
    forall|k: int| 0 <= k < cols.len() ==> (#[trigger] kind_for(cols[k].data_type, cols[k].not_null)) is Some
}

/// `t` is the empty table that `CREATE TABLE` with these columns makes.
pub open spec fn fresh_table(t: Table, cols: Seq<ColumnSpec>) -> bool {
    &&& t.wf()
    &&& t.nrows() == 0
    &&& t.columns.len() == cols.len()
    &&& t.names() == spec_names(cols)
    &&& forall|k: int| 0 <= k < cols.len() ==> (#[trigger] t.columns@[k]).kind() == kind_for(cols[k].data_type, cols[k].not_null)->0
}

/// The literal that a row gives column `k` of `t`: by position without a
/// column list, else by name, `NULL` where the list does not name it.
pub open spec fn value_for(t: Table, cols: Seq<Seq<char>>, row: Seq<SqlValue>, k: int) -> Option<SqlValue> {
    if cols.len() == 0 {
        if 0 <= k < row.len() {
            Some(row[k])
        } else {
            None
        }
    } else {
        match first_index(cols, t.names()[k]) {
            Some(i) => if i < row.len() {
                Some(row[i])
            } else {
                None
            },
            None => Some(SqlValue::Null),
        }
    }
}

pub open spec fn row_fits(t: Table, cols: Seq<Seq<char>>, row: Seq<SqlValue>) -> bool {
    &&& cols.len() == 0 ==> row.len() == t.columns.len()
    &&& forall|k: int| 0 <= k < t.columns.len() ==> (#[trigger] value_for(t, cols, row, k)) is Some && accept(t.columns@[k].kind(), value_for(t, cols, row, k)->0) is Some
}

/// The cell that a fitting row stores in column `k`.
pub open spec fn row_cell(t: Table, cols: Seq<Seq<char>>, row: Seq<SqlValue>, k: int) -> Option<Field> {
    accept(t.columns@[k].kind(), value_for(t, cols, row, k)->0)->0
}

pub open spec fn row_views(rows: Seq<Vec<SqlValue>>) -> Seq<Seq<SqlValue>> {
    rows.map_values(|r: Vec<SqlValue>| r@)
}

/// `t2` is `t` with `rows` appended.
pub open spec fn inserted(t: Table, t2: Table, cols: Seq<Seq<char>>, rows: Seq<Seq<SqlValue>>) -> bool {
    &&& t2.wf()
    &&& t2.column_order == t.column_order
    &&& t2.columns.len() == t.columns.len()
    &&& t.columns.len() > 0 ==> t2.nrows() == t.nrows() + rows.len()
    &&& forall|k: int| 0 <= k < t.columns.len() ==> (#[trigger] t2.columns@[k]).kind() == t.columns@[k].kind()
    &&& forall|k: int, i: int| 0 <= k < t.columns.len() && 0 <= i < t.nrows() ==> #[trigger] t2.columns@[k].cell(i) == t.columns@[k].cell(i)
    &&& forall|k: int, j: int| 0 <= k < t.columns.len() && 0 <= j < rows.len() ==> t2.columns@[k].cell(t.nrows() + j) == #[trigger] row_cell(t, cols, rows[j], k)
}

/// The empty table that `CREATE TABLE` with these columns makes.
pub fn new_table(cols: &Vec<ColumnSpec>) -> (r: Result<Table, ReadError>)
    ensures
        r is Ok <==> all_supported(cols@),
        r matches Ok(t) ==> fresh_table(t, cols@),
        r matches Err(e) ==> e == ReadError::UnsupportedType,
{
    let mut order: Vec<String> = Vec::new();
    let mut columns: Vec<Column> = Vec::new();
    let mut k: usize = 0;
    while k < cols.len()
        invariant
            k <= cols@.len(),
            order@.len() == k,
            columns@.len() == k,
            forall|j: int| 0 <= j < k ==> (#[trigger] order@[j])@ == cols@[j].name@,
            forall|j: int| 0 <= j < k ==> (#[trigger] columns@[j]).spec_len() == 0,
            forall|j: int| 0 <= j < k ==> (#[trigger] kind_for(cols@[j].data_type, cols@[j].not_null)) is Some,
            forall|j: int| 0 <= j < k ==> (#[trigger] columns@[j]).kind() == kind_for(cols@[j].data_type, cols@[j].not_null)->0,
        decreases cols@.len() - k,
    {
        let kind = match column_kind(cols[k].data_type, cols[k].not_null) {
            Some(kind) => kind,
            None => {
                assert(kind_for(cols@[k as int].data_type, cols@[k as int].not_null) is None);
                return Err(ReadError::UnsupportedType);
            },
        };
        order.push(cols[k].name.clone());
        columns.push(Column::empty(kind));
        k = k + 1;
    }
    let t = Table { column_order: order, columns };
    assert(t.names() =~= spec_names(cols@));
    Ok(t)
}

/// The cells that a row gives each column of `t`, in column order; `None`
/// where the row does not fit.
pub fn row_cells(t: &Table, cols: &Vec<String>, row: &Vec<SqlValue>) -> (r: Option<Vec<Option<Field>>>)
    requires
        t.wf(),
    ensures
        r is Some <==> row_fits(*t, string_views(cols@), row@),
        r matches Some(c) ==> c@.len() == t.columns.len() && forall|k: int|
            0 <= k < c@.len() ==> (#[trigger] c@[k]) == row_cell(*t, string_views(cols@), row@, k)
                && fits(t.columns@[k].kind(), c@[k]),
{
    let ghost cv = string_views(cols@);
    let width = t.columns.len();
    if cols.len() == 0 && row.len() != width {
        return None;
    }
    let null = SqlValue::Null;
    let mut out: Vec<Option<Field>> = Vec::new();
    let mut k: usize = 0;
    while k < width
        invariant
            t.wf(),
            width == t.columns.len(),
            cv == string_views(cols@),
            cols@.len() == 0 ==> row@.len() == width,
            null == SqlValue::Null,
            k <= width,
            out@.len() == k,
            forall|j: int| 0 <= j < k ==> (#[trigger] value_for(*t, cv, row@, j)) is Some && accept(t.columns@[j].kind(), value_for(*t, cv, row@, j)->0) is Some,
            forall|j: int| 0 <= j < k ==> (#[trigger] out@[j]) == row_cell(*t, cv, row@, j) && fits(t.columns@[j].kind(), out@[j]),
        decreases width - k,
    {
        let v: &SqlValue = if cols.len() == 0 {
            &row[k]
        } else {
            assert(t.names()[k as int] == t.column_order@[k as int]@);
            match find_string(cols, t.column_order[k].as_str()) {
                Some(i) => {
                    if i < row.len() {
                        &row[i]
                    } else {
                        return None;
                    }
                },
                None => &null,
            }
        };
        assert(value_for(*t, cv, row@, k as int) == Some(*v));
        let kind = t.columns[k].kind_of();
        match accept_value(kind, v) {
            Some(c) => out.push(c),
            None => return None,
        }
        k = k + 1;
    }
    Some(out)
}

/// `after` and `r` are what applying `stmt` to `before` gives.
pub open spec fn applied(before: MemoryDb, stmt: Statement, after: MemoryDb, r: Result<(), ReadError>) -> bool {
    &&& after.wf()
    &&& r is Err ==> after.tables@ == before.tables@
    &&& match stmt {
        Statement::CreateTable { name, columns } => if all_supported(columns@) {
            &&& r is Ok
            &&& after.table(name@) matches Some(t) && fresh_table(t, columns@)
            &&& forall|n: Seq<char>| n != name@ ==> #[trigger] after.table(n) == before.table(n)
        } else {
            r == Err::<(), ReadError>(ReadError::UnsupportedType)
        },
        Statement::Insert { table, column_list, rows } => match before.table(table@) {
            None => r == Err::<(), ReadError>(ReadError::UnknownTable),
            Some(t) => if forall|j: int| 0 <= j < rows@.len() ==> row_fits(t, string_views(column_list@), #[trigger] rows@[j]@) {
                &&& r is Ok
                &&& after.table(table@) matches Some(t2) && inserted(t, t2, string_views(column_list@), row_views(rows@))
                &&& forall|n: Seq<char>| n != table@ ==> #[trigger] after.table(n) == before.table(n)
            } else {
                r == Err::<(), ReadError>(ReadError::MalformedRow)
            },
        },
        Statement::DropTables { names } => {
            &&& r is Ok
            &&& forall|n: Seq<char>| #[trigger] after.table(n) == if string_views(names@).contains(n) { None } else { before.table(n) }
        },
        _ => r is Ok && after.tables@ == before.tables@,
    }
}

impl MemoryDb {
    /// Applies one statement of a registry dump. A statement that fails
    /// leaves the store as it was.
    pub fn apply(&mut self, stmt: &Statement) -> (r: Result<(), ReadError>)
        requires
            old(self).wf(),
        ensures
            applied(*old(self), *stmt, *final(self), r),
    {
        match stmt {
            Statement::CreateTable { name, columns } => {
                let t = match new_table(columns) {
                    Ok(t) => t,
                    Err(e) => return Err(e),
                };
                self.put_table(name.clone(), t);
                Ok(())
            },
            Statement::Insert { table, column_list, rows } => self.insert_rows(table, column_list, rows),
            Statement::DropTables { names } => {
                let ghost nv = string_views(names@);
                let mut i: usize = 0;
                while i < names.len()
                    invariant
                        self.wf(),
                        nv == string_views(names@),
                        i <= names@.len(),
                        forall|n: Seq<char>| #[trigger] self.table(n) == if nv.subrange(0, i as int).contains(n) { None } else { old(self).table(n) },
                    decreases names@.len() - i,
                {
                    let ghost before = *self;
                    assert(nv[i as int] == names@[i as int]@);
                    self.drop_table(names[i].as_str());
                    proof {
                        assert forall|n: Seq<char>| #[trigger] self.table(n) == if nv.subrange(0, i + 1).contains(n) { None } else { old(self).table(n) } by {
                            assert(nv.subrange(0, i + 1) == nv.subrange(0, i as int).push(nv[i as int]));
                            assert(before.table(n) == if nv.subrange(0, i as int).contains(n) { None } else { old(self).table(n) });
                            if nv.subrange(0, i as int).contains(n) {
                                let w = choose|w: int| 0 <= w < i && nv.subrange(0, i as int)[w] == n;
                                assert(nv.subrange(0, i + 1)[w] == n);
                            }
                            if n == nv[i as int] {
                                assert(nv.subrange(0, i + 1)[i as int] == n);
                            }
                        }
                    }
                    i = i + 1;
                }
                assert(nv.subrange(0, i as int) == nv);
                Ok(())
            },
            _ => Ok(()),
        }
    }

    fn insert_rows(&mut self, table: &String, column_list: &Vec<String>, rows: &Vec<Vec<SqlValue>>) -> (r: Result<(), ReadError>)
        requires
            old(self).wf(),
        ensures
            final(self).wf(),
            r is Err ==> final(self).tables@ == old(self).tables@,
            match old(self).table(table@) {
                None => r == Err::<(), ReadError>(ReadError::UnknownTable),
                Some(t) => if forall|j: int| 0 <= j < rows@.len() ==> row_fits(t, string_views(column_list@), #[trigger] rows@[j]@) {
                    &&& r is Ok
                    &&& final(self).table(table@) matches Some(t2) && inserted(t, t2, string_views(column_list@), row_views(rows@))
                    &&& forall|n: Seq<char>| n != table@ ==> #[trigger] final(self).table(n) == old(self).table(n)
                } else {
                    r == Err::<(), ReadError>(ReadError::MalformedRow)
                },
            },
    {
        let ghost cv = string_views(column_list@);
        let ghost rv = row_views(rows@);
        let ghost names = self.names();
        proof { crate::search::lemma_distinct_lookup(names, table@); }
        let k = match self.table_index(table.as_str()) {
            Some(k) => k,
            None => return Err(ReadError::UnknownTable),
        };
        let ghost t0 = self.tables@[k as int].1;
        assert(self.table(table@) == Some(t0));
        let mut cell_rows: Vec<Vec<Option<Field>>> = Vec::new();
        let mut j: usize = 0;
        while j < rows.len()
            invariant
                self.wf(),
                self.tables@ == old(self).tables@,
                old(self).table(table@) == Some(t0),
                k < self.tables.len(),
                t0 == self.tables@[k as int].1,
                cv == string_views(column_list@),
                j <= rows@.len(),
                cell_rows@.len() == j,
                forall|q: int| 0 <= q < j ==> row_fits(t0, cv, #[trigger] rows@[q]@),
                forall|q: int| 0 <= q < j ==> (#[trigger] cell_rows@[q])@.len() == t0.columns.len(),
                forall|q: int, m: int| 0 <= q < j && 0 <= m < t0.columns.len() ==> (#[trigger] cell_rows@[q]@[m]) == row_cell(t0, cv, rows@[q]@, m) && fits(t0.columns@[m].kind(), cell_rows@[q]@[m]),
            decreases rows@.len() - j,
        {
            assert(self.tables@[k as int].1.wf());
            match row_cells(&self.tables[k].1, column_list, &rows[j]) {
                Some(c) => cell_rows.push(c),
                None => {
                    assert(!row_fits(t0, cv, rows@[j as int]@));
                    return Err(ReadError::MalformedRow);
                },
            }
            j = j + 1;
        }
        let ghost old_tables = self.tables@;
        assert(old_tables[k as int].1.wf());
        let (nm, mut t) = self.tables.remove(k);
        let mut i: usize = 0;
        while i < cell_rows.len()
            invariant
                t0.wf(),
                cell_rows@.len() == rows@.len(),
                rv == row_views(rows@),
                i <= cell_rows@.len(),
                forall|q: int| 0 <= q < cell_rows@.len() ==> (#[trigger] cell_rows@[q])@.len() == t0.columns.len(),
                forall|q: int, m: int| 0 <= q < cell_rows@.len() && 0 <= m < t0.columns.len() ==> (#[trigger] cell_rows@[q]@[m]) == row_cell(t0, cv, rv[q], m) && fits(t0.columns@[m].kind(), cell_rows@[q]@[m]),
                t.wf(),
                t.column_order == t0.column_order,
                t.columns.len() == t0.columns.len(),
                t0.columns.len() > 0 ==> t.nrows() == t0.nrows() + i,
                forall|m: int| 0 <= m < t0.columns.len() ==> (#[trigger] t.columns@[m]).kind() == t0.columns@[m].kind(),
                forall|m: int, q: int| 0 <= m < t0.columns.len() && 0 <= q < t0.nrows() ==> #[trigger] t.columns@[m].cell(q) == t0.columns@[m].cell(q),
                forall|m: int, q: int| 0 <= m < t0.columns.len() && 0 <= q < i ==> t.columns@[m].cell(t0.nrows() + q) == #[trigger] row_cell(t0, cv, rv[q], m),
            decreases cell_rows@.len() - i,
        {
            let ghost tb = t;
            let mut c: Vec<Option<Field>> = Vec::new();
            let mut m: usize = 0;
            while m < cell_rows[i].len()
                invariant
                    i < cell_rows@.len(),
                    m <= cell_rows@[i as int]@.len(),
                    c@.len() == m,
                    forall|p: int| 0 <= p < m ==> (#[trigger] c@[p]) == cell_rows@[i as int]@[p],
                decreases cell_rows@[i as int]@.len() - m,
            {
                c.push(crate::table::duplicate_cell(&cell_rows[i][m]));
                m = m + 1;
            }
            assert(c@ =~= cell_rows@[i as int]@);
            t.append_row(c);
            proof {
                assert forall|m: int, q: int| 0 <= m < t0.columns.len() && 0 <= q < i + 1 implies t.columns@[m].cell(t0.nrows() + q) == #[trigger] row_cell(t0, cv, rv[q], m) by {
                    if q < i {
                        assert(tb.columns@[m].cell(t0.nrows() + q) == row_cell(t0, cv, rv[q], m));
                        if t0.columns.len() > 0 {
                            assert(t0.nrows() + q < tb.nrows());
                        }
                    } else {
                        assert(cell_rows@[q]@[m] == row_cell(t0, cv, rv[q], m));
                    }
                }
            }
            i = i + 1;
        }
        self.tables.insert(k, (nm, t));
        proof {
            assert(self.tables@ =~= old_tables.update(k as int, (nm, t)));
            assert(self.names() =~= names);
            assert forall|q: int| 0 <= q < self.tables.len() implies (#[trigger] self.tables@[q]).1.wf() by {
                if q != k as int {
                    assert(self.tables@[q] == old_tables[q]);
                }
            }
            assert forall|n: Seq<char>| n != table@ implies #[trigger] self.table(n) == old(self).table(n) by {
                crate::search::lemma_distinct_lookup(names, n);
                if let Some(q) = first_index(names, n) {
                    assert(self.tables@[q] == old_tables[q]);
                }
            }
            assert forall|q: int| 0 <= q < rows@.len() implies row_fits(t0, cv, #[trigger] rows@[q]@) by {}
            assert(rv.len() == rows@.len());
            assert forall|q: int| 0 <= q < rv.len() implies #[trigger] rv[q] == rows@[q]@ by {}
        }
        Ok(())
    }
}

/// `states` runs from `first` through each statement of `stmts` in turn,
/// every one of them applied without error.
pub open spec fn applied_all(first: MemoryDb, stmts: Seq<Statement>, states: Seq<MemoryDb>) -> bool {
    &&& states.len() == stmts.len() + 1
    &&& states[0] == first
    &&& forall|k: int| 0 <= k < stmts.len() ==> #[trigger] applied(states[k], stmts[k], states[k + 1], Ok(()))
}

/// The statements of `stmts` before position `k` apply to `first` without
/// error, and statement `k` then fails with `e`, leaving `last`.
pub open spec fn failed_at(first: MemoryDb, stmts: Seq<Statement>, k: int, e: ReadError, last: MemoryDb) -> bool {
    &&& 0 <= k < stmts.len()
    &&& exists|states: Seq<MemoryDb>| #[trigger] applied_all(first, stmts.subrange(0, k), states)
        && states.last().tables@ == last.tables@ && applied(states.last(), stmts[k], last, Err(e))
}

impl MemoryDb {
    /// Applies the statements of a dump in order, and stops at the first
    /// that fails: its position and error are returned, and the store holds
    /// what the statements before it made.
    pub fn apply_all(&mut self, stmts: &Vec<Statement>) -> (r: Result<(), (usize, ReadError)>)
        requires
            old(self).wf(),
        ensures
            final(self).wf(),
            r is Ok ==> exists|states: Seq<MemoryDb>| #[trigger] applied_all(*old(self), stmts@, states) && states.last() == *final(self),
            r is Err ==> failed_at(*old(self), stmts@, r->Err_0.0 as int, r->Err_0.1, *final(self)),
    {
        let ghost mut states: Seq<MemoryDb> = seq![*self];
        let mut i: usize = 0;
        while i < stmts.len()
            invariant
                self.wf(),
                i <= stmts@.len(),
                applied_all(*old(self), stmts@.subrange(0, i as int), states),
                states.last() == *self,
            decreases stmts@.len() - i,
        {
            let ghost before = *self;
            match self.apply(&stmts[i]) {
                Ok(()) => {
                    proof {
                        let ns = states.push(*self);
                        assert(stmts@.subrange(0, i + 1).subrange(0, i as int) == stmts@.subrange(0, i as int));
                        assert forall|k: int| 0 <= k < i + 1 implies #[trigger] applied(ns[k], stmts@.subrange(0, i + 1)[k], ns[k + 1], Ok(())) by {
                            if k < i {
                                assert(stmts@.subrange(0, i + 1)[k] == stmts@.subrange(0, i as int)[k]);
                                assert(applied(states[k], stmts@.subrange(0, i as int)[k], states[k + 1], Ok(())));
                            } else {
                                assert(stmts@.subrange(0, i + 1)[k] == stmts@[i as int]);
                            }
                        }
                        states = ns;
                    }
                },
                Err(e) => {
                    assert(failed_at(*old(self), stmts@, i as int, e, *self));
                    return Err((i, e));
                },
            }
            i = i + 1;
        }
        assert(stmts@.subrange(0, i as int) == stmts@);
        Ok(())
    }
}

} // verus!
