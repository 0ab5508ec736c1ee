use vstd::prelude::*;
use crate::search::{first_index, string_views, find_string, lemma_first_index_bounds, lemma_distinct_lookup};

verus! {

/// A numeric literal as it stands in the dump: its digits, and whether a
/// unary minus stood before it.
#[derive(Debug, PartialEq, Eq)]
pub struct Decimal {
    pub negative: bool,
    pub digits: String,
}

impl Decimal {
    pub fn duplicate(&self) -> (r: Decimal)
        ensures
            r == *self,
    {
        Decimal { negative: self.negative, digits: self.digits.clone() }
    }
}

/// One value read from a table.
#[derive(Debug, PartialEq, Eq)]
pub enum Field {
    StringLike(String),
    IntLike(i64),
    Double(Decimal),
}

impl Field {
    pub fn duplicate(&self) -> (r: Field)
        ensures
            r == *self,
    {
        match self {
            Field::StringLike(s) => Field::StringLike(s.clone()),
            Field::IntLike(i) => Field::IntLike(*i),
            Field::Double(d) => Field::Double(d.duplicate()),
        }
    }
}

pub fn duplicate_cell(c: &Option<Field>) -> (r: Option<Field>)
    ensures
        r == *c,
{
    match c {
        Some(f) => Some(f.duplicate()),
        None => None,
    }
}

/// The semantic type of a column, and whether it admits missing values.
#[derive(Debug, Clone, Copy, PartialEq, Eq, Structural)]
pub enum ColumnKind {
    Text,
    MaybeText,
    Int,
    MaybeInt,
    Double,
    MaybeDouble,
}

/// Whether a cell may stand in a column of the given kind.
pub open spec fn fits(kind: ColumnKind, c: Option<Field>) -> bool {
    match kind {
        ColumnKind::Text => c matches Some(Field::StringLike(_)),
        ColumnKind::MaybeText => c is None || c matches Some(Field::StringLike(_)),
        ColumnKind::Int => c matches Some(Field::IntLike(_)),
        ColumnKind::MaybeInt => c is None || c matches Some(Field::IntLike(_)),
        ColumnKind::Double => c matches Some(Field::Double(_)),
        ColumnKind::MaybeDouble => c is None || c matches Some(Field::Double(_)),
    }
}

#[derive(Debug)]
pub enum ColumnData {
    StringLike(Vec<String>),
    MaybeStringLike(Vec<Option<String>>),
    IntLike(Vec<i64>),
    MaybeIntLike(Vec<Option<i64>>),
    Double(Vec<Decimal>),
    MaybeDouble(Vec<Option<Decimal>>),
}

#[derive(Debug)]
pub struct Column {
    pub data: ColumnData,
}

impl Column {
    pub open spec fn kind(&self) -> ColumnKind {
        match self.data {
            ColumnData::StringLike(_) => ColumnKind::Text,
            ColumnData::MaybeStringLike(_) => ColumnKind::MaybeText,
            ColumnData::IntLike(_) => ColumnKind::Int,
            ColumnData::MaybeIntLike(_) => ColumnKind::MaybeInt,
            ColumnData::Double(_) => ColumnKind::Double,
            ColumnData::MaybeDouble(_) => ColumnKind::MaybeDouble,
        }
    }

    pub open spec fn spec_len(&self) -> nat {
        match self.data {
            ColumnData::StringLike(v) => v.len() as nat,
            ColumnData::MaybeStringLike(v) => v.len() as nat,
            ColumnData::IntLike(v) => v.len() as nat,
            ColumnData::MaybeIntLike(v) => v.len() as nat,
            ColumnData::Double(v) => v.len() as nat,
            ColumnData::MaybeDouble(v) => v.len() as nat,
        }
    }

    /// The value in row `i`, or `None` where it is missing or `i` is past the end.
    pub open spec fn cell(&self, i: int) -> Option<Field> {
        if 0 <= i < self.spec_len() {
            match self.data {
                ColumnData::StringLike(v) => Some(Field::StringLike(v@[i])),
                ColumnData::MaybeStringLike(v) => match v@[i] {
                    Some(s) => Some(Field::StringLike(s)),
                    None => None,
                },
                ColumnData::IntLike(v) => Some(Field::IntLike(v@[i])),
                ColumnData::MaybeIntLike(v) => match v@[i] {
                    Some(x) => Some(Field::IntLike(x)),
                    None => None,
                },
                ColumnData::Double(v) => Some(Field::Double(v@[i])),
                ColumnData::MaybeDouble(v) => match v@[i] {
                    Some(d) => Some(Field::Double(d)),
                    None => None,
                },
            }
        } else {
            None
        }
    }

    /// All cells, top to bottom.
    pub open spec fn cells(&self) -> Seq<Option<Field>> {
        Seq::new(self.spec_len(), |i: int| self.cell(i))
    }

    /// The integer in row `i` of an integer column.
    pub open spec fn int_at(&self, i: int) -> Option<i64> {
        match self.cell(i) {
            Some(Field::IntLike(x)) => Some(x),
            _ => None,
        }
    }

    pub open spec fn is_int(&self) -> bool {
        self.kind() == ColumnKind::Int || self.kind() == ColumnKind::MaybeInt
    }

    pub fn len(&self) -> (r: usize)
        ensures
            r == self.spec_len(),
    {
        match &self.data {
            ColumnData::StringLike(v) => v.len(),
            ColumnData::MaybeStringLike(v) => v.len(),
            ColumnData::IntLike(v) => v.len(),
            ColumnData::MaybeIntLike(v) => v.len(),
            ColumnData::Double(v) => v.len(),
            ColumnData::MaybeDouble(v) => v.len(),
        }
    }

    pub fn is_empty(&self) -> (r: bool)
        ensures
            r == (self.spec_len() == 0),
    {
        self.len() == 0
    }

    /// An empty column of the given kind.
    pub fn empty(kind: ColumnKind) -> (r: Column)
        ensures
            r.kind() == kind,
            r.spec_len() == 0,
    {
        let data = match kind {
            ColumnKind::Text => ColumnData::StringLike(Vec::new()),
            ColumnKind::MaybeText => ColumnData::MaybeStringLike(Vec::new()),
            ColumnKind::Int => ColumnData::IntLike(Vec::new()),
            ColumnKind::MaybeInt => ColumnData::MaybeIntLike(Vec::new()),
            ColumnKind::Double => ColumnData::Double(Vec::new()),
            ColumnKind::MaybeDouble => ColumnData::MaybeDouble(Vec::new()),
        };
        Column { data }
    }

    pub fn kind_of(&self) -> (r: ColumnKind)
        ensures
            r == self.kind(),
    {
        match &self.data {
            ColumnData::StringLike(_) => ColumnKind::Text,
            ColumnData::MaybeStringLike(_) => ColumnKind::MaybeText,
            ColumnData::IntLike(_) => ColumnKind::Int,
            ColumnData::MaybeIntLike(_) => ColumnKind::MaybeInt,
            ColumnData::Double(_) => ColumnKind::Double,
            ColumnData::MaybeDouble(_) => ColumnKind::MaybeDouble,
        }
    }

    pub fn cell_at(&self, i: usize) -> (r: Option<Field>)
        ensures
            r == self.cell(i as int),
    {
        if i >= self.len() {
            return None;
        }
        match &self.data {
            ColumnData::StringLike(v) => Some(Field::StringLike(v[i].clone())),
            ColumnData::MaybeStringLike(v) => match &v[i] {
                Some(s) => Some(Field::StringLike(s.clone())),
                None => None,
            },
            ColumnData::IntLike(v) => Some(Field::IntLike(v[i])),
            ColumnData::MaybeIntLike(v) => match v[i] {
                Some(x) => Some(Field::IntLike(x)),
                None => None,
            },
            ColumnData::Double(v) => Some(Field::Double(v[i].duplicate())),
            ColumnData::MaybeDouble(v) => match &v[i] {
                Some(d) => Some(Field::Double(d.duplicate())),
                None => None,
            },
        }
    }

    pub fn int_value_at(&self, i: usize) -> (r: Option<i64>)
        ensures
            r == self.int_at(i as int),
    {
        if i >= self.len() {
            return None;
        }
        match &self.data {
            ColumnData::IntLike(v) => Some(v[i]),
            ColumnData::MaybeIntLike(v) => v[i],
            _ => None,
        }
    }

    /// Appends a cell at the bottom.
    pub fn push_cell(&mut self, c: Option<Field>)
        requires
            fits(old(self).kind(), c),
        ensures
            final(self).kind() == old(self).kind(),
            final(self).spec_len() == old(self).spec_len() + 1,
            forall|i: int| 0 <= i < old(self).spec_len() ==> final(self).cell(i) == old(self).cell(i),
            final(self).cell(old(self).spec_len() as int) == c,
    {
        match &mut self.data {
            ColumnData::StringLike(v) => {
                if let Some(Field::StringLike(s)) = c {
                    v.push(s);
                }
            },
            ColumnData::MaybeStringLike(v) => {
                match c {
                    Some(Field::StringLike(s)) => v.push(Some(s)),
                    _ => v.push(None),
                }
            },
            ColumnData::IntLike(v) => {
                if let Some(Field::IntLike(x)) = c {
                    v.push(x);
                }
            },
            ColumnData::MaybeIntLike(v) => {
                match c {
                    Some(Field::IntLike(x)) => v.push(Some(x)),
                    _ => v.push(None),
                }
            },
            ColumnData::Double(v) => {
                if let Some(Field::Double(d)) = c {
                    v.push(d);
                }
            },
            ColumnData::MaybeDouble(v) => {
                match c {
                    Some(Field::Double(d)) => v.push(Some(d)),
                    _ => v.push(None),
                }
            },
        }
    }
}

/// The character sequences of a list of string slices.
pub open spec fn str_views(v: Seq<&str>) -> Seq<Seq<char>> {
    v.map_values(|s: &str| s@)
}

/// A table: named columns of equal length, in the order they were declared.
#[derive(Debug)]
pub struct Table {
    pub column_order: Vec<String>,
    pub columns: Vec<Column>,
}

impl Table {
    pub open spec fn names(&self) -> Seq<Seq<char>> {
        string_views(self.column_order@)
    }

    pub open spec fn nrows(&self) -> nat {
        if self.columns.len() == 0 {
            0
        } else {
            self.columns@[0].spec_len()
        }
    }

    /// One name for each column, and every column as long as the first.
    pub open spec fn wf(&self) -> bool {
        &&& self.column_order.len() == self.columns.len()
        &&& forall|k: int| 0 <= k < self.columns.len() ==> #[trigger] self.columns@[k].spec_len() == self.nrows()
    }

    /// The position of the column called `name`.
    pub open spec fn col(&self, name: Seq<char>) -> Option<int> {
        first_index(self.names(), name)
    }

    /// The value in row `i` of the column called `name`.
    pub open spec fn value(&self, name: Seq<char>, i: int) -> Option<Field> {
        match self.col(name) {
            Some(k) => self.columns@[k].cell(i),
            None => None,
        }
    }

    pub open spec fn has_all(&self, sel: Seq<Seq<char>>) -> bool {
        forall|k: int| 0 <= k < sel.len() ==> (#[trigger] self.col(sel[k])) is Some
    }

    /// Row `i` cut down to the selected columns.
    pub open spec fn row(&self, sel: Seq<Seq<char>>, i: int) -> Seq<Option<Field>> {
        Seq::new(sel.len(), |k: int| self.value(sel[k], i))
    }

    /// The rows among the first `n` whose column `k` holds `val`, in order.
    pub open spec fn matching(&self, k: int, val: i64, n: int) -> Seq<int>
        decreases n,
    {
        if n <= 0 {
            Seq::empty()
        } else if self.columns@[k].int_at(n - 1) == Some(val) {
            self.matching(k, val, n - 1).push(n - 1)
        } else {
            self.matching(k, val, n - 1)
        }
    }

    /// The rows whose integer column called `name` holds `val`; `None` where
    /// there is no such integer column.
    pub open spec fn rows_where(&self, name: Seq<char>, val: i64) -> Option<Seq<int>> {
        match self.col(name) {
            Some(k) => if self.columns@[k].is_int() {
                Some(self.matching(k, val, self.nrows() as int))
            } else {
                None
            },
            None => None,
        }
    }

    /// The number of rows, or `None` for a table without columns.
    pub fn rows(&self) -> (r: Option<usize>)
        requires
            self.wf(),
        ensures
            r == (if self.columns.len() == 0 { None::<usize> } else { Some(self.nrows() as usize) }),
    {
        if self.columns.len() == 0 {
            None
        } else {
            Some(self.columns[0].len())
        }
    }

    fn column_index(&self, name: &str) -> (r: Option<usize>)
        requires
            self.wf(),
        ensures
            r matches Some(k) ==> self.col(name@) == Some(k as int) && k < self.columns.len(),
            r is None ==> self.col(name@) is None,
    {
        let r = find_string(&self.column_order, name);
        proof {
            lemma_first_index_bounds(self.names(), name@);
        }
        r
    }

    /// The positions of the selected columns, if all of them exist.
    fn select_columns(&self, select: &[&str]) -> (r: Option<Vec<usize>>)
        requires
            self.wf(),
        ensures
            r is Some <==> self.has_all(str_views(select@)),
            r matches Some(ks) ==> ks@.len() == select@.len() && forall|j: int|
                0 <= j < ks@.len() ==> self.col(select@[j]@) == Some(ks@[j] as int),
            r matches Some(ks) ==> forall|j: int| 0 <= j < ks@.len() ==> ks@[j] < self.columns.len(),
    {
        let ghost sel = str_views(select@);
        let mut ks: Vec<usize> = Vec::new();
        let mut j: usize = 0;
        while j < select.len()
            invariant
                self.wf(),
                sel == str_views(select@),
                j <= select@.len(),
                ks@.len() == j,
                forall|i: int| 0 <= i < j ==> self.col(select@[i]@) == Some(ks@[i] as int),
                forall|i: int| 0 <= i < j ==> ks@[i] < self.columns.len(),
            decreases select@.len() - j,
        {
            match self.column_index(select[j]) {
                Some(k) => ks.push(k),
                None => {
                    assert(sel[j as int] == select@[j as int]@);
                    return None;
                },
            }
            j = j + 1;
        }
        assert forall|k: int| 0 <= k < sel.len() implies (#[trigger] self.col(sel[k])) is Some by {
            assert(sel[k] == select@[k]@);
            assert(self.col(select@[k]@) == Some(ks@[k] as int));
        }
        Some(ks)
    }

    /// Row `i` of the given columns.
    fn row_of(&self, ks: &Vec<usize>, i: usize) -> (r: Vec<Option<Field>>)
        requires
            self.wf(),
            forall|j: int| 0 <= j < ks@.len() ==> ks@[j] < self.columns.len(),
        ensures
            r@ == Seq::new(ks@.len(), |j: int| self.columns@[ks@[j] as int].cell(i as int)),
    {
        let mut out: Vec<Option<Field>> = Vec::new();
        let mut j: usize = 0;
        while j < ks.len()
            invariant
                j <= ks@.len(),
                forall|m: int| 0 <= m < ks@.len() ==> ks@[m] < self.columns.len(),
                out@ == Seq::new(j as nat, |m: int| self.columns@[ks@[m] as int].cell(i as int)),
            decreases ks@.len() - j,
        {
            let c = self.columns[ks[j]].cell_at(i);
            out.push(c);
            j = j + 1;
            assert(out@ =~= Seq::new(j as nat, |m: int| self.columns@[ks@[m] as int].cell(i as int)));
        }
        out
    }

    /// Every row, cut down to the selected columns; an error where one of
    /// them does not exist.
    pub fn get_rows(&self, select: &[&str]) -> (r: Result<Vec<Vec<Option<Field>>>, String>)
        requires
            self.wf(),
        ensures
            r is Ok <==> self.has_all(str_views(select@)),
            r matches Ok(rows) ==> rows@.len() == self.nrows() && forall|i: int|
                0 <= i < rows@.len() ==> (#[trigger] rows@[i])@ == self.row(str_views(select@), i),
    {
        let ghost sel = str_views(select@);
        let ks = match self.select_columns(select) {
            Some(ks) => ks,
            None => return Err("could not satisfy the selected columns".to_owned()),
        };
        let n = match self.rows() {
            Some(n) => n,
            None => 0,
        };
        let mut out: Vec<Vec<Option<Field>>> = Vec::new();
        let mut i: usize = 0;
        while i < n
            invariant
                self.wf(),
                sel == str_views(select@),
                n == self.nrows(),
                i <= n,
                ks@.len() == sel.len(),
                forall|j: int| 0 <= j < ks@.len() ==> self.col(sel[j]) == Some(ks@[j] as int),
                forall|j: int| 0 <= j < ks@.len() ==> ks@[j] < self.columns.len(),
                out@.len() == i,
                forall|m: int| 0 <= m < i ==> (#[trigger] out@[m])@ == self.row(sel, m),
            decreases n - i,
        {
            let row = self.row_of(&ks, i);
            assert(row@ =~= self.row(sel, i as int));
            out.push(row);
            i = i + 1;
        }
        Ok(out)
    }

    /// The positions of the rows whose integer column `k` holds `val`.
    fn matching_rows(&self, k: usize, val: i64) -> (r: Vec<usize>)
        requires
            self.wf(),
            k < self.columns.len(),
        ensures
            r@.map_values(|i: usize| i as int) == self.matching(k as int, val, self.nrows() as int),
    {
        let n = self.columns[k].len();
        let mut out: Vec<usize> = Vec::new();
        let mut i: usize = 0;
        while i < n
            invariant
                self.wf(),
                k < self.columns.len(),
                n == self.nrows(),
                i <= n,
                out@.map_values(|i: usize| i as int) == self.matching(k as int, val, i as int),
            decreases n - i,
        {
            let ghost before = out@;
            if self.columns[k].int_value_at(i) == Some(val) {
                out.push(i);
                assert(out@.map_values(|i: usize| i as int) =~= before.map_values(
                    |i: usize| i as int,
                ).push(i as int));
            }
            i = i + 1;
        }
        out
    }

    /// The rows whose integer column `col` holds `val`, cut down to the
    /// selected columns. Empty where `col` is not an integer column or a
    /// selected column does not exist.
    pub fn get_rows_where_i64(&self, col: &str, val: i64, select: &[&str]) -> (r: Vec<
        Vec<Option<Field>>,
    >)
        requires
            self.wf(),
        ensures
            match self.rows_where(col@, val) {
                Some(m) => if self.has_all(str_views(select@)) {
                    r@.len() == m.len() && forall|j: int|
                        0 <= j < m.len() ==> (#[trigger] r@[j])@ == self.row(
                            str_views(select@),
                            m[j],
                        )
                } else {
                    r@.len() == 0
                },
                None => r@.len() == 0,
            },
    {
        let ghost sel = str_views(select@);
        let ks = match self.select_columns(select) {
            Some(ks) => ks,
            None => return Vec::new(),
        };
        let k = match self.column_index(col) {
            Some(k) => k,
            None => return Vec::new(),
        };
        let kind = self.columns[k].kind_of();
        if !(kind == ColumnKind::Int || kind == ColumnKind::MaybeInt) {
            return Vec::new();
        }
        let idx = self.matching_rows(k, val);
        let ghost m = self.matching(k as int, val, self.nrows() as int);
        assert(idx@.len() == m.len() && forall|j: int| 0 <= j < m.len() ==> m[j] == idx@[j] as int)
            by {
            assert(idx@.map_values(|i: usize| i as int).len() == idx@.len());
            assert forall|j: int| 0 <= j < m.len() implies m[j] == idx@[j] as int by {
                assert(idx@.map_values(|i: usize| i as int)[j] == idx@[j] as int);
            }
        }
        let mut out: Vec<Vec<Option<Field>>> = Vec::new();
        let mut j: usize = 0;
        while j < idx.len()
            invariant
                self.wf(),
                sel == str_views(select@),
                ks@.len() == sel.len(),
                forall|q: int| 0 <= q < ks@.len() ==> self.col(sel[q]) == Some(ks@[q] as int),
                forall|q: int| 0 <= q < ks@.len() ==> ks@[q] < self.columns.len(),
                idx@.len() == m.len(),
                forall|q: int| 0 <= q < m.len() ==> m[q] == idx@[q] as int,
                j <= idx@.len(),
                out@.len() == j,
                forall|q: int| 0 <= q < j ==> (#[trigger] out@[q])@ == self.row(sel, m[q]),
            decreases idx@.len() - j,
        {
            let row = self.row_of(&ks, idx[j]);
            assert(row@ =~= self.row(sel, m[j as int]));
            out.push(row);
            j = j + 1;
        }
        out
    }

    /// Appends one row; `cells` holds a value for each column, in column order.
    pub fn append_row(&mut self, cells: Vec<Option<Field>>)
        requires
            old(self).wf(),
            cells@.len() == old(self).columns.len(),
            forall|k: int| 0 <= k < cells@.len() ==> fits(old(self).columns@[k].kind(), #[trigger] cells@[k]),
        ensures
            final(self).wf(),
            final(self).column_order == old(self).column_order,
            final(self).columns.len() == old(self).columns.len(),
            old(self).columns.len() > 0 ==> final(self).nrows() == old(self).nrows() + 1,
            forall|k: int| 0 <= k < old(self).columns.len() ==> (#[trigger] final(self).columns@[k]).kind() == old(self).columns@[k].kind(),
            forall|k: int, i: int| 0 <= k < old(self).columns.len() && 0 <= i < old(self).nrows() ==> #[trigger] final(self).columns@[k].cell(i) == old(self).columns@[k].cell(i),
            forall|k: int| 0 <= k < old(self).columns.len() ==> (#[trigger] final(self).columns@[k]).cell(old(self).nrows() as int) == cells@[k],
    {
        let ghost before = self.columns@;
        let ghost n0 = self.nrows();
        let mut k: usize = 0;
        while k < cells.len()
            invariant
                self.column_order == old(self).column_order,
                before == old(self).columns@,
                n0 == old(self).nrows(),
                old(self).wf(),
                cells@.len() == before.len(),
                forall|j: int| 0 <= j < cells@.len() ==> fits(before[j].kind(), #[trigger] cells@[j]),
                k <= cells@.len(),
                self.columns@.len() == before.len(),
                forall|j: int| k <= j < before.len() ==> #[trigger] self.columns@[j] == before[j],
                forall|j: int| 0 <= j < k ==> (#[trigger] self.columns@[j]).kind() == before[j].kind() && self.columns@[j].spec_len() == n0 + 1,
                forall|j: int, i: int| 0 <= j < k && 0 <= i < n0 ==> #[trigger] self.columns@[j].cell(i) == before[j].cell(i),
                forall|j: int| 0 <= j < k ==> (#[trigger] self.columns@[j]).cell(n0 as int) == cells@[j],
            decreases cells@.len() - k,
        {
            assert(before[k as int].spec_len() == n0);
            let c = duplicate_cell(&cells[k]);
            self.columns[k].push_cell(c);
            k = k + 1;
        }
    }

    /// How many of the first `n` selected columns exist before the first one
    /// that does not.
    pub open spec fn leading_found(&self, sel: Seq<Seq<char>>, n: int) -> int
        decreases n,
    {
        if n <= 0 {
            0
        } else {
            let p = self.leading_found(sel, n - 1);
            if p == n - 1 && self.col(sel[n - 1]) is Some {
                n
            } else {
                p
            }
        }
    }

    /// Row `i` cut down to the selected columns, where every column from the
    /// first one that does not exist on is left empty.
    pub open spec fn row_until_missing(&self, sel: Seq<Seq<char>>, i: int) -> Seq<Option<Field>> {
        let p = self.leading_found(sel, sel.len() as int);
        Seq::new(sel.len(), |k: int| if k < p { self.value(sel[k], i) } else { None })
    }

    /// The first row whose integer column `col` holds `val`, cut down to the
    /// selected columns; `None` where no row matches or `col` is not an
    /// integer column.
    pub fn get_row_where_i64(&self, col: &str, val: i64, select: &[&str]) -> (r: Option<
        Vec<Option<Field>>,
    >)
        requires
            self.wf(),
        ensures
            match self.rows_where(col@, val) {
                Some(m) => if m.len() > 0 {
                    r matches Some(row) && row@ == self.row_until_missing(str_views(select@), m[0])
                } else {
                    r is None
                },
                None => r is None,
            },
    {
        let ghost sel = str_views(select@);
        let k = match self.column_index(col) {
            Some(k) => k,
            None => return None,
        };
        let kind = self.columns[k].kind_of();
        if !(kind == ColumnKind::Int || kind == ColumnKind::MaybeInt) {
            return None;
        }
        let idx = self.matching_rows(k, val);
        if idx.len() == 0 {
            proof {
                assert(idx@.map_values(|i: usize| i as int).len() == 0);
            }
            return None;
        }
        let index = idx[0];
        let ghost m = self.matching(k as int, val, self.nrows() as int);
        assert(m[0] == index as int) by {
            assert(idx@.map_values(|i: usize| i as int)[0] == index as int);
        }
        let mut out: Vec<Option<Field>> = Vec::new();
        let mut j: usize = 0;
        let mut missing = false;
        while j < select.len()
            invariant
                self.wf(),
                sel == str_views(select@),
                j <= sel.len(),
                out@.len() == j,
                missing ==> self.leading_found(sel, j as int) < j,
                !missing ==> self.leading_found(sel, j as int) == j,
                forall|q: int|
                    0 <= q < j ==> (#[trigger] out@[q]) == (if q < self.leading_found(
                        sel,
                        j as int,
                    ) {
                        self.value(sel[q], index as int)
                    } else {
                        None
                    }),
            decreases sel.len() - j,
        {
            assert(sel[j as int] == select@[j as int]@);
            let c = if missing {
                None
            } else {
                match self.column_index(select[j]) {
                    Some(c) => self.columns[c].cell_at(index),
                    None => {
                        missing = true;
                        None
                    },
                }
            };
            out.push(c);
            j = j + 1;
        }
        proof {
            let p = self.leading_found(sel, sel.len() as int);
            assert(out@ =~= Seq::new(sel.len(), |q: int| if q < p { self.value(sel[q], index as int) } else { None }));
        }
        Some(out)
    }
}

/// The tables of a registry snapshot, by name.
#[derive(Debug)]
pub struct MemoryDb {
    pub tables: Vec<(String, Table)>,
}

pub open spec fn table_names(t: Seq<(String, Table)>) -> Seq<Seq<char>> {
    t.map_values(|p: (String, Table)| p.0@)
}

impl MemoryDb {
    pub open spec fn names(&self) -> Seq<Seq<char>> {
        table_names(self.tables@)
    }

    /// Each table well formed, and no name used twice.
    pub open spec fn wf(&self) -> bool {
        &&& forall|k: int| 0 <= k < self.tables.len() ==> (#[trigger] self.tables@[k]).1.wf()
        &&& forall|i: int, j: int|
            0 <= i < j < self.tables.len() ==> self.names()[i] != self.names()[j]
    }

    /// The table called `name`.
    pub open spec fn table(&self, name: Seq<char>) -> Option<Table> {
        match first_index(self.names(), name) {
            Some(k) => Some(self.tables@[k].1),
            None => None,
        }
    }

    /// A store without tables.
    pub fn new() -> (r: MemoryDb)
        ensures
            r.wf(),
            forall|n: Seq<char>| r.table(n) is None,
    {
        MemoryDb { tables: Vec::new() }
    }

    /// The position of the table called `name`.
    pub fn table_index(&self, name: &str) -> (r: Option<usize>)
        requires
            self.wf(),
        ensures
            r matches Some(k) ==> first_index(self.names(), name@) == Some(k as int) && k < self.tables.len(),
            r is None ==> first_index(self.names(), name@) is None,
    {
        let mut i: usize = 0;
        let ghost names = self.names();
        let key = name.to_owned();
        while i < self.tables.len()
            invariant
                i <= self.tables.len(),
                names == self.names(),
                names.len() == self.tables.len(),
                key@ == name@,
                first_index(names.subrange(0, i as int), name@) is None,
            decreases self.tables.len() - i,
        {
            assert(names.subrange(0, i + 1).drop_last() == names.subrange(0, i as int));
            if self.tables[i].0 == key {
                proof {
                    crate::search::lemma_first_index_prefix(names, name@, i + 1);
                }
                return Some(i);
            }
            i = i + 1;
        }
        assert(names.subrange(0, i as int) == names);
        None
    }

    /// Stores `t` under `name`, in place of any table of that name.
    pub fn put_table(&mut self, name: String, t: Table)
        requires
            old(self).wf(),
            t.wf(),
        ensures
            final(self).wf(),
            forall|n: Seq<char>| #[trigger] final(self).table(n) == if n == name@ { Some(t) } else { old(self).table(n) },
    {
        let ghost old_names = self.names();
        let ghost old_tables = self.tables@;
        proof { lemma_distinct_lookup(old_names, name@); }
        match self.table_index(name.as_str()) {
            Some(k) => {
                self.tables.set(k, (name, t));
                assert(self.names() =~= old_names);
                proof {
                    assert forall|n: Seq<char>| #[trigger] self.table(n) == if n == name@ { Some(t) } else { old(self).table(n) } by {
                        lemma_distinct_lookup(old_names, n);
                        if let Some(j) = first_index(old_names, n) {
                            if j != k as int {
                                assert(self.tables@[j] == old_tables[j]);
                            }
                        }
                    }
                }
            },
            None => {
                self.tables.push((name, t));
                let ghost new_names = self.names();
                assert(new_names =~= old_names.push(name@));
                proof {
                    assert forall|i: int, j: int| 0 <= i < j < new_names.len() implies new_names[i] != new_names[j] by {
                        if j == old_names.len() {
                            assert(old_names[i] != name@);
                        }
                    }
                    assert forall|n: Seq<char>| #[trigger] self.table(n) == if n == name@ { Some(t) } else { old(self).table(n) } by {
                        lemma_distinct_lookup(old_names, n);
                        lemma_distinct_lookup(new_names, n);
                        if n == name@ {
                            assert(new_names[old_names.len() as int] == n);
                        } else if let Some(j) = first_index(old_names, n) {
                            assert(new_names[j] == n);
                            assert(self.tables@[j] == old_tables[j]);
                        } else {
                            assert forall|q: int| 0 <= q < new_names.len() implies new_names[q] != n by {
                                if q < old_names.len() {
                                    assert(new_names[q] == old_names[q]);
                                }
                            }
                        }
                    }
                }
            },
        }
    }

    /// Removes the table called `name`, if there is one.
    pub fn drop_table(&mut self, name: &str)
        requires
            old(self).wf(),
        ensures
            final(self).wf(),
            forall|n: Seq<char>| #[trigger] final(self).table(n) == if n == name@ { None } else { old(self).table(n) },
    {
        let ghost old_names = self.names();
        let ghost old_tables = self.tables@;
        proof { lemma_distinct_lookup(old_names, name@); }
        match self.table_index(name) {
            Some(k) => {
                self.tables.remove(k);
                let ghost new_names = self.names();
                assert(new_names =~= old_names.remove(k as int));
                proof {
                    assert forall|i: int, j: int| 0 <= i < j < new_names.len() implies new_names[i] != new_names[j] by {
                        let oi = if i < k { i } else { i + 1 };
                        let oj = if j < k { j } else { j + 1 };
                        assert(new_names[i] == old_names[oi]);
                        assert(new_names[j] == old_names[oj]);
                    }
                    assert forall|q: int| 0 <= q < self.tables.len() implies (#[trigger] self.tables@[q]).1.wf() by {
                        let oq = if q < k { q } else { q + 1 };
                        assert(self.tables@[q] == old_tables[oq]);
                    }
                    assert forall|n: Seq<char>| #[trigger] self.table(n) == if n == name@ { None } else { old(self).table(n) } by {
                        lemma_distinct_lookup(old_names, n);
                        lemma_distinct_lookup(new_names, n);
                        if n == name@ {
                            assert forall|q: int| 0 <= q < new_names.len() implies new_names[q] != n by {
                                let oq = if q < k { q } else { q + 1 };
                                assert(new_names[q] == old_names[oq]);
                            }
                        } else if let Some(j) = first_index(old_names, n) {
                            let nj = if j < k { j } else { j - 1 };
                            assert(new_names[nj] == n);
                            assert(self.tables@[nj] == old_tables[j]);
                        } else {
                            assert forall|q: int| 0 <= q < new_names.len() implies new_names[q] != n by {
                                let oq = if q < k { q } else { q + 1 };
                                assert(new_names[q] == old_names[oq]);
                            }
                        }
                    }
                }
            },
            None => {},
        }
    }

    pub fn get_table(&self, name: &str) -> (r: Option<&Table>)
        requires
            self.wf(),
        ensures
            match self.table(name@) {
                Some(t) => r matches Some(x) && *x == t,
                None => r is None,
            },
            r matches Some(x) ==> x.wf(),
    {
        let mut i: usize = 0;
        let ghost names = self.names();
        let key = name.to_owned();
        while i < self.tables.len()
            invariant
                self.wf(),
                i <= self.tables.len(),
                names == self.names(),
                names.len() == self.tables.len(),
                key@ == name@,
                first_index(names.subrange(0, i as int), name@) is None,
            decreases self.tables.len() - i,
        {
            assert(names.subrange(0, i + 1).drop_last() == names.subrange(0, i as int));
            if self.tables[i].0 == key {
                proof {
                    crate::search::lemma_first_index_prefix(names, name@, i + 1);
                }
                return Some(&self.tables[i].1);
            }
            i = i + 1;
        }
        assert(names.subrange(0, i as int) == names);
        None
    }
}

} // verus!
