use vstd::prelude::*;
use crate::search::first_index;
use crate::table::{Decimal, Field};

verus! {

/// Why a registry snapshot could not be compiled.
#[derive(Debug, Clone, Copy, PartialEq, Eq, Structural)]
pub enum CompileError {
    /// A table that the compiler reads is absent.
    MissingTable,
    /// A column that the compiler reads is absent from its table.
    MissingColumn,
    /// A code that does not fit in 32 bits without sign.
    CodeOutOfRange,
    /// The system table or the operation table holds nothing that the
    /// compiler can use.
    EmptyTable,
    /// A row without a code that it must carry.
    MissingCode,
    /// An ellipsoid whose unit of measure is not in the unit table.
    UnknownUnit,
    /// An ellipsoid without a semi-major axis, or with neither a semi-minor
    /// axis nor an inverse flattening.
    MalformedEllipsoid,
}

/// A row as the store hands it out.
pub type Row = Vec<Option<Field>>;

pub open spec fn row_views(rows: Seq<Row>) -> Seq<Seq<Option<Field>>> {
    rows.map_values(|r: Row| r@)
}

/// The results of `f` on the elements of `s` for which it gives one, in order.
pub open spec fn keep<A, X>(s: Seq<A>, f: spec_fn(A) -> Option<X>) -> Seq<X>
    decreases s.len(),
{
    if s.len() == 0 {
        Seq::empty()
    } else {
        match f(s.last()) {
            Some(x) => keep(s.drop_last(), f).push(x),
            None => keep(s.drop_last(), f),
        }
    }
}

/// Every element that `keep` gives is the result of `f` on an element of `s`.
pub proof fn lemma_keep_elements<A, X>(s: Seq<A>, f: spec_fn(A) -> Option<X>)
    ensures
        forall|i: int| 0 <= i < keep(s, f).len() ==> exists|j: int| 0 <= j < s.len() && f(s[j]) == Some(#[trigger] keep(s, f)[i]),
    decreases s.len(),
{
    if s.len() > 0 {
        let d = s.drop_last();
        lemma_keep_elements(d, f);
        assert forall|i: int| 0 <= i < keep(s, f).len() implies exists|j: int| 0 <= j < s.len() && f(s[j]) == Some(#[trigger] keep(s, f)[i]) by {
            if i < keep(d, f).len() {
                let j = choose|j: int| 0 <= j < d.len() && f(d[j]) == Some(keep(d, f)[i]);
                assert(s[j] == d[j]);
            } else {
                assert(f(s[s.len() - 1]) == Some(keep(s, f)[i]));
            }
        }
    }
}

pub proof fn lemma_keep_step<A, X>(s: Seq<A>, f: spec_fn(A) -> Option<X>, i: int)
    requires
        0 <= i < s.len(),
    ensures
        keep(s.subrange(0, i + 1), f) == match f(s[i]) {
            Some(x) => keep(s.subrange(0, i), f).push(x),
            None => keep(s.subrange(0, i), f),
        },
{
    assert(s.subrange(0, i + 1).drop_last() == s.subrange(0, i));
    assert(s.subrange(0, i + 1).last() == s[i]);
}

pub open spec fn fits_u32(x: i64) -> bool {
    0 <= x <= u32::MAX
}

pub fn to_u32(x: i64) -> (r: Option<u32>)
    ensures
        r == (if fits_u32(x) { Some(x as u32) } else { None::<u32> }),
{
    if 0 <= x && x <= 4294967295 {
        Some(x as u32)
    } else {
        None
    }
}

/// The value stored under `key` first.
pub open spec fn lookup<X>(m: Seq<(u32, X)>, key: u32) -> Option<X> {
    match first_index(m.map_values(|p: (u32, X)| p.0), key) {
        Some(i) => Some(m[i].1),
        None => None,
    }
}

/// The position of the first entry under `key`.
pub fn find_key<X>(m: &Vec<(u32, X)>, key: u32) -> (r: Option<usize>)
    ensures
        r matches Some(i) ==> i < m@.len() && lookup(m@, key) == Some(m@[i as int].1),
        r is None ==> lookup(m@, key) is None,
{
    let ghost keys = m@.map_values(|p: (u32, X)| p.0);
    let mut i: usize = 0;
    while i < m.len()
        invariant
            i <= m@.len(),
            keys == m@.map_values(|p: (u32, X)| p.0),
            first_index(keys.subrange(0, i as int), key) is None,
        decreases m@.len() - i,
    {
        assert(keys.subrange(0, i + 1).drop_last() == keys.subrange(0, i as int));
        if m[i].0 == key {
            assert(keys[i as int] == key);
            proof {
                crate::search::lemma_first_index_prefix(keys, key, i + 1);
                crate::search::lemma_first_index_bounds(keys, key);
            }
            return Some(i);
        }
        i = i + 1;
    }
    assert(keys.subrange(0, i as int) == keys);
    None
}

/// A unit of measure: a value in it times `factor_b / factor_c` is in the
/// canonical unit (metres or radians).
#[derive(Debug, PartialEq, Eq)]
pub struct Unit {
    pub code: u32,
    pub factor_b: Decimal,
    pub factor_c: Decimal,
}

pub open spec fn unit_of(row: Seq<Option<Field>>) -> Option<Unit> {
    if row.len() == 3 {
        match (row[0], row[1], row[2]) {
            (Some(Field::IntLike(c)), Some(Field::Double(b)), Some(Field::Double(f))) => if fits_u32(c) {
                Some(Unit { code: c as u32, factor_b: b, factor_c: f })
            } else {
                None
            },
            _ => None,
        }
    } else {
        None
    }
}

/// The units of the rows `[uom_code, factor_b, factor_c]` that carry all three.
pub fn read_units(rows: &Vec<Row>) -> (r: Vec<Unit>)
    ensures
        r@ == keep(row_views(rows@), unit_of_fn()),
{
    let ghost rv = row_views(rows@);
    let ghost f = unit_of_fn();
    let mut out: Vec<Unit> = Vec::new();
    let mut i: usize = 0;
    while i < rows.len()
        invariant
            i <= rows@.len(),
            rv == row_views(rows@),
            f == unit_of_fn(),
            out@ == keep(rv.subrange(0, i as int), f),
        decreases rows@.len() - i,
    {
        proof { lemma_keep_step(rv, f, i as int); }
        let row = &rows[i];
        assert(rv[i as int] == row@);
        if row.len() == 3 {
            match (&row[0], &row[1], &row[2]) {
                (Some(Field::IntLike(c)), Some(Field::Double(b)), Some(Field::Double(fc))) => {
                    match to_u32(*c) {
                        Some(code) => out.push(Unit { code, factor_b: b.duplicate(), factor_c: fc.duplicate() }),
                        None => {},
                    }
                },
                _ => {},
            }
        }
        i = i + 1;
    }
    assert(rv.subrange(0, i as int) == rv);
    out
}

pub open spec fn int_cell(c: Option<Field>) -> Option<i64> {
    match c {
        Some(Field::IntLike(x)) => Some(x),
        _ => None,
    }
}

pub open spec fn text_cell(c: Option<Field>) -> Option<String> {
    match c {
        Some(Field::StringLike(x)) => Some(x),
        _ => None,
    }
}

pub open spec fn dec_cell(c: Option<Field>) -> Option<Decimal> {
    match c {
        Some(Field::Double(x)) => Some(x),
        _ => None,
    }
}

pub open spec fn text_is(c: Option<Field>, t: Seq<char>) -> bool {
    match c {
        Some(Field::StringLike(x)) => x@ == t,
        _ => false,
    }
}

/// The first error that `g` finds along `s`.
pub open spec fn first_err<A>(s: Seq<A>, g: spec_fn(A) -> Option<CompileError>) -> Option<CompileError>
    decreases s.len(),
{
    if s.len() == 0 {
        None
    } else {
        match first_err(s.drop_last(), g) {
            Some(e) => Some(e),
            None => g(s.last()),
        }
    }
}

pub proof fn lemma_first_err_step<A>(s: Seq<A>, g: spec_fn(A) -> Option<CompileError>, i: int)
    requires
        0 <= i < s.len(),
    ensures
        first_err(s.subrange(0, i + 1), g) == match first_err(s.subrange(0, i), g) {
            Some(e) => Some(e),
            None => g(s[i]),
        },
{
    assert(s.subrange(0, i + 1).drop_last() == s.subrange(0, i));
    assert(s.subrange(0, i + 1).last() == s[i]);
}

/// An error found at some point stays the first one.
pub proof fn lemma_first_err_prefix<A>(s: Seq<A>, g: spec_fn(A) -> Option<CompileError>, n: int)
    requires
        0 <= n <= s.len(),
        first_err(s.subrange(0, n), g) is Some,
    ensures
        first_err(s, g) == first_err(s.subrange(0, n), g),
    decreases s.len() - n,
{
    if n < s.len() {
        lemma_first_err_step(s, g, n);
        lemma_first_err_prefix(s, g, n + 1);
    } else {
        assert(s.subrange(0, n) == s);
    }
}

/// What a coordinate reference system row is, as far as the compiler cares.
#[derive(Debug, Clone, Copy, PartialEq, Eq, Structural)]
pub enum CrsEntry {
    Geographic2D { datum: u32 },
    Projected { conversion: u32, base: u32 },
}

/// Classifies a row `[code, base_crs_code, projection_conv_code, datum_code, kind]`.
pub open spec fn classify(row: Seq<Option<Field>>) -> Option<(u32, CrsEntry)> {
    if row.len() != 5 {
        None
    } else if int_cell(row[0]) is Some && int_cell(row[3]) is Some && text_is(row[4], "geographic 2D"@) {
        let c = int_cell(row[0])->0;
        let d = int_cell(row[3])->0;
        if fits_u32(c) && fits_u32(d) {
            Some((c as u32, CrsEntry::Geographic2D { datum: d as u32 }))
        } else {
            None
        }
    } else if int_cell(row[0]) is Some && int_cell(row[1]) is Some && int_cell(row[2]) is Some
        && text_is(row[4], "projected"@) {
        let c = int_cell(row[0])->0;
        let b = int_cell(row[1])->0;
        let v = int_cell(row[2])->0;
        if fits_u32(c) && fits_u32(b) && fits_u32(v) {
            Some((c as u32, CrsEntry::Projected { conversion: v as u32, base: b as u32 }))
        } else {
            None
        }
    } else {
        None
    }
}

fn classify_row(row: &Row) -> (r: Option<(u32, CrsEntry)>)
    ensures
        r == classify(row@),
{
    if row.len() != 5 {
        return None;
    }
    let geo = "geographic 2D".to_owned();
    let proj = "projected".to_owned();
    if let (Some(Field::IntLike(c)), Some(Field::IntLike(d)), Some(Field::StringLike(k))) = (&row[0], &row[3], &row[4]) {
        if *k == geo {
            return match (to_u32(*c), to_u32(*d)) {
                (Some(c), Some(d)) => Some((c, CrsEntry::Geographic2D { datum: d })),
                _ => None,
            };
        }
    }
    if let (Some(Field::IntLike(c)), Some(Field::IntLike(b)), Some(Field::IntLike(v)), Some(Field::StringLike(k))) = (&row[0], &row[1], &row[2], &row[4]) {
        if *k == proj {
            return match (to_u32(*c), to_u32(*b), to_u32(*v)) {
                (Some(c), Some(b), Some(v)) => Some((c, CrsEntry::Projected { conversion: v, base: b })),
                _ => None,
            };
        }
    }
    None
}

/// The geographic 2-D and projected systems among the rows
/// `[coord_ref_sys_code, base_crs_code, projection_conv_code, datum_code, coord_ref_sys_kind]`.
pub fn read_crs(rows: &Vec<Row>) -> (r: Vec<(u32, CrsEntry)>)
    ensures
        r@ == keep(row_views(rows@), classify_fn()),
{
    let ghost rv = row_views(rows@);
    let ghost f = classify_fn();
    let mut out: Vec<(u32, CrsEntry)> = Vec::new();
    let mut i: usize = 0;
    while i < rows.len()
        invariant
            i <= rows@.len(),
            rv == row_views(rows@),
            f == classify_fn(),
            out@ == keep(rv.subrange(0, i as int), f),
        decreases rows@.len() - i,
    {
        proof { lemma_keep_step(rv, f, i as int); }
        assert(rv[i as int] == rows@[i as int]@);
        match classify_row(&rows[i]) {
            Some(e) => out.push(e),
            None => {},
        }
        i = i + 1;
    }
    assert(rv.subrange(0, i as int) == rv);
    out
}

pub open spec fn name_of(row: Seq<Option<Field>>) -> Option<(u32, String)> {
    if row.len() == 2 && int_cell(row[0]) is Some && text_cell(row[1]) is Some && fits_u32(int_cell(row[0])->0) {
        Some((int_cell(row[0])->0 as u32, text_cell(row[1])->0))
    } else {
        None
    }
}

/// The names among the rows `[coord_ref_sys_code, coord_ref_sys_name]`.
pub fn read_names(rows: &Vec<Row>) -> (r: Vec<(u32, String)>)
    ensures
        r@ == keep(row_views(rows@), name_of_fn()),
{
    let ghost rv = row_views(rows@);
    let ghost f = name_of_fn();
    let mut out: Vec<(u32, String)> = Vec::new();
    let mut i: usize = 0;
    while i < rows.len()
        invariant
            i <= rows@.len(),
            rv == row_views(rows@),
            f == name_of_fn(),
            out@ == keep(rv.subrange(0, i as int), f),
        decreases rows@.len() - i,
    {
        proof { lemma_keep_step(rv, f, i as int); }
        let row = &rows[i];
        assert(rv[i as int] == row@);
        if row.len() == 2 {
            if let (Some(Field::IntLike(c)), Some(Field::StringLike(n))) = (&row[0], &row[1]) {
                if let Some(c) = to_u32(*c) {
                    out.push((c, n.clone()));
                }
            }
        }
        i = i + 1;
    }
    assert(rv.subrange(0, i as int) == rv);
    out
}

/// A bounding box of an area of use, in degrees.
#[derive(Debug, PartialEq, Eq)]
pub struct Extent {
    pub east: Decimal,
    pub north: Decimal,
    pub west: Decimal,
    pub south: Decimal,
}

impl Extent {
    pub fn duplicate(&self) -> (r: Extent)
        ensures
            r == *self,
    {
        Extent {
            east: self.east.duplicate(),
            north: self.north.duplicate(),
            west: self.west.duplicate(),
            south: self.south.duplicate(),
        }
    }
}

/// Reads a row `[extent_code, extent_name, south, west, north, east]`.
pub open spec fn extent_of(row: Seq<Option<Field>>) -> Option<(u32, Extent)> {
    if row.len() == 6 && int_cell(row[0]) is Some && text_cell(row[1]) is Some && dec_cell(row[2]) is Some
        && dec_cell(row[3]) is Some && dec_cell(row[4]) is Some && dec_cell(row[5]) is Some
        && fits_u32(int_cell(row[0])->0) {
        Some((int_cell(row[0])->0 as u32, Extent {
            east: dec_cell(row[5])->0,
            north: dec_cell(row[4])->0,
            west: dec_cell(row[3])->0,
            south: dec_cell(row[2])->0,
        }))
    } else {
        None
    }
}

/// The extents among the rows `[extent_code, extent_name, bbox_south_bound_lat,
/// bbox_west_bound_lon, bbox_north_bound_lat, bbox_east_bound_lon]`.
pub fn read_extents(rows: &Vec<Row>) -> (r: Vec<(u32, Extent)>)
    ensures
        r@ == keep(row_views(rows@), extent_of_fn()),
{
    let ghost rv = row_views(rows@);
    let ghost f = extent_of_fn();
    let mut out: Vec<(u32, Extent)> = Vec::new();
    let mut i: usize = 0;
    while i < rows.len()
        invariant
            i <= rows@.len(),
            rv == row_views(rows@),
            f == extent_of_fn(),
            out@ == keep(rv.subrange(0, i as int), f),
        decreases rows@.len() - i,
    {
        proof { lemma_keep_step(rv, f, i as int); }
        let row = &rows[i];
        assert(rv[i as int] == row@);
        if row.len() == 6 {
            if let (Some(Field::IntLike(c)), Some(Field::StringLike(_)), Some(Field::Double(s)), Some(Field::Double(w)), Some(Field::Double(n)), Some(Field::Double(e))) = (&row[0], &row[1], &row[2], &row[3], &row[4], &row[5]) {
                if let Some(c) = to_u32(*c) {
                    out.push((c, Extent { east: e.duplicate(), north: n.duplicate(), west: w.duplicate(), south: s.duplicate() }));
                }
            }
        }
        i = i + 1;
    }
    assert(rv.subrange(0, i as int) == rv);
    out
}

/// Reads a row `[object_code, extent_code]` against the known extents.
pub open spec fn usage_of(extents: Seq<(u32, Extent)>, row: Seq<Option<Field>>) -> Option<(u32, Extent)> {
    if row.len() == 2 && int_cell(row[0]) is Some && int_cell(row[1]) is Some
        && fits_u32(int_cell(row[0])->0) && fits_u32(int_cell(row[1])->0)
        && lookup(extents, int_cell(row[1])->0 as u32) is Some {
        Some((int_cell(row[0])->0 as u32, lookup(extents, int_cell(row[1])->0 as u32)->0))
    } else {
        None
    }
}

/// The areas of use: each usage row `[object_code, extent_code]` whose extent
/// is known, as the object's code and the extent.
pub fn read_usages(rows: &Vec<Row>, extents: &Vec<(u32, Extent)>) -> (r: Vec<(u32, Extent)>)
    ensures
        r@ == keep(row_views(rows@), usage_of_fn(extents@)),
{
    let ghost rv = row_views(rows@);
    let ghost f = usage_of_fn(extents@);
    let mut out: Vec<(u32, Extent)> = Vec::new();
    let mut i: usize = 0;
    while i < rows.len()
        invariant
            i <= rows@.len(),
            rv == row_views(rows@),
            f == usage_of_fn(extents@),
            out@ == keep(rv.subrange(0, i as int), f),
        decreases rows@.len() - i,
    {
        proof { lemma_keep_step(rv, f, i as int); }
        let row = &rows[i];
        assert(rv[i as int] == row@);
        if row.len() == 2 {
            if let (Some(Field::IntLike(o)), Some(Field::IntLike(e))) = (&row[0], &row[1]) {
                if let (Some(o), Some(e)) = (to_u32(*o), to_u32(*e)) {
                    if let Some(k) = find_key(extents, e) {
                        out.push((o, extents[k].1.duplicate()));
                    }
                }
            }
        }
        i = i + 1;
    }
    assert(rv.subrange(0, i as int) == rv);
    out
}

pub open spec fn op_err(row: Seq<Option<Field>>) -> Option<CompileError> {
    if row.len() == 2 && int_cell(row[0]) is Some && int_cell(row[1]) is Some && !(fits_u32(
        int_cell(row[0])->0,
    ) && fits_u32(int_cell(row[1])->0)) {
        Some(CompileError::CodeOutOfRange)
    } else {
        None
    }
}

pub open spec fn op_of(row: Seq<Option<Field>>) -> Option<(u32, u32)> {
    if row.len() == 2 && int_cell(row[0]) is Some && int_cell(row[1]) is Some && fits_u32(
        int_cell(row[0])->0,
    ) && fits_u32(int_cell(row[1])->0) {
        Some((int_cell(row[0])->0 as u32, int_cell(row[1])->0 as u32))
    } else {
        None
    }
}

/// The method of each operation among the rows `[coord_op_code, coord_op_method_code]`.
pub fn read_ops(rows: &Vec<Row>) -> (r: Result<Vec<(u32, u32)>, CompileError>)
    ensures
        match first_err(row_views(rows@), op_err_fn()) {
            Some(e) => r == Err::<Vec<(u32, u32)>, CompileError>(e),
            None => r matches Ok(v) && v@ == keep(row_views(rows@), op_of_fn()),
        },
{
    let ghost rv = row_views(rows@);
    let ghost f = op_of_fn();
    let ghost g = op_err_fn();
    let mut out: Vec<(u32, u32)> = Vec::new();
    let mut i: usize = 0;
    while i < rows.len()
        invariant
            i <= rows@.len(),
            rv == row_views(rows@),
            f == op_of_fn(),
            g == op_err_fn(),
            out@ == keep(rv.subrange(0, i as int), f),
            first_err(rv.subrange(0, i as int), g) is None,
        decreases rows@.len() - i,
    {
        proof {
            lemma_keep_step(rv, f, i as int);
            lemma_first_err_step(rv, g, i as int);
        }
        let row = &rows[i];
        assert(rv[i as int] == row@);
        if row.len() == 2 {
            if let (Some(Field::IntLike(o)), Some(Field::IntLike(m))) = (&row[0], &row[1]) {
                match (to_u32(*o), to_u32(*m)) {
                    (Some(o), Some(m)) => out.push((o, m)),
                    _ => {
                        proof { lemma_first_err_prefix(rv, g, i + 1); }
                        return Err(CompileError::CodeOutOfRange);
                    },
                }
            }
        }
        i = i + 1;
    }
    assert(rv.subrange(0, i as int) == rv);
    Ok(out)
}

/// The unit stored first under `code`.
pub open spec fn find_unit(units: Seq<Unit>, code: u32) -> Option<Unit> {
    match first_index(units.map_values(|u: Unit| u.code), code) {
        Some(i) => Some(units[i]),
        None => None,
    }
}

pub fn unit_index(units: &Vec<Unit>, code: u32) -> (r: Option<usize>)
    ensures
        r matches Some(i) ==> i < units@.len() && find_unit(units@, code) == Some(units@[i as int]),
        r is None ==> find_unit(units@, code) is None,
{
    let ghost keys = units@.map_values(|u: Unit| u.code);
    let mut i: usize = 0;
    while i < units.len()
        invariant
            i <= units@.len(),
            keys == units@.map_values(|u: Unit| u.code),
            first_index(keys.subrange(0, i as int), code) is None,
        decreases units@.len() - i,
    {
        assert(keys.subrange(0, i + 1).drop_last() == keys.subrange(0, i as int));
        if units[i].code == code {
            assert(keys[i as int] == code);
            proof {
                crate::search::lemma_first_index_prefix(keys, code, i + 1);
                crate::search::lemma_first_index_bounds(keys, code);
            }
            return Some(i);
        }
        i = i + 1;
    }
    assert(keys.subrange(0, i as int) == keys);
    None
}

/// The code of the sexagesimal degree encoding (DDD.MMSSsss).
pub const SEXAGESIMAL_DMS: u32 = 9110;

/// A parameter value of a conversion, in the unit it was recorded in.
#[derive(Debug, PartialEq, Eq)]
pub struct ParamValue {
    pub code: u32,
    pub value: Decimal,
    pub uom: u32,
}

impl ParamValue {
    pub fn duplicate(&self) -> (r: ParamValue)
        ensures
            r == *self,
    {
        ParamValue { code: self.code, value: self.value.duplicate(), uom: self.uom }
    }
}

/// Whether a row `[coord_op_code, parameter_code, parameter_value, uom_code]`
/// carries all four values.
pub open spec fn param_complete(row: Seq<Option<Field>>) -> bool {
    row.len() == 4 && int_cell(row[0]) is Some && int_cell(row[1]) is Some && dec_cell(row[2]) is Some
        && int_cell(row[3]) is Some
}

/// Whether the parameter row is used: its unit is the sexagesimal encoding or
/// one of `units`.
pub open spec fn param_used(units: Seq<Unit>, row: Seq<Option<Field>>) -> bool {
    let u = int_cell(row[3])->0;
    u == SEXAGESIMAL_DMS || (fits_u32(u) && find_unit(units, u as u32) is Some)
}

pub open spec fn param_err(units: Seq<Unit>, row: Seq<Option<Field>>) -> Option<CompileError> {
    if !param_complete(row) {
        None
    } else if int_cell(row[3])->0 != SEXAGESIMAL_DMS && !fits_u32(int_cell(row[3])->0) {
        Some(CompileError::CodeOutOfRange)
    } else if param_used(units, row) && !(fits_u32(int_cell(row[0])->0) && fits_u32(int_cell(row[1])->0)) {
        Some(CompileError::CodeOutOfRange)
    } else {
        None
    }
}

pub open spec fn param_of(units: Seq<Unit>, row: Seq<Option<Field>>) -> Option<(u32, ParamValue)> {
    if param_complete(row) && param_used(units, row) && fits_u32(int_cell(row[0])->0) && fits_u32(int_cell(row[1])->0) {
        Some((int_cell(row[0])->0 as u32, ParamValue {
            code: int_cell(row[1])->0 as u32,
            value: dec_cell(row[2])->0,
            uom: int_cell(row[3])->0 as u32,
        }))
    } else {
        None
    }
}

/// The parameter values of the conversions, each under its operation code,
/// from the rows `[coord_op_code, parameter_code, parameter_value, uom_code]`.
/// A value in a unit that is neither known nor the sexagesimal encoding is left out.
pub fn read_params(rows: &Vec<Row>, units: &Vec<Unit>) -> (r: Result<Vec<(u32, ParamValue)>, CompileError>)
    ensures
        match first_err(row_views(rows@), param_err_fn(units@)) {
            Some(e) => r == Err::<Vec<(u32, ParamValue)>, CompileError>(e),
            None => r matches Ok(v) && v@ == keep(row_views(rows@), param_of_fn(units@)),
        },
{
    let ghost rv = row_views(rows@);
    let ghost f = param_of_fn(units@);
    let ghost g = param_err_fn(units@);
    let mut out: Vec<(u32, ParamValue)> = Vec::new();
    let mut i: usize = 0;
    while i < rows.len()
        invariant
            i <= rows@.len(),
            rv == row_views(rows@),
            f == param_of_fn(units@),
            g == param_err_fn(units@),
            out@ == keep(rv.subrange(0, i as int), f),
            first_err(rv.subrange(0, i as int), g) is None,
        decreases rows@.len() - i,
    {
        proof {
            lemma_keep_step(rv, f, i as int);
            lemma_first_err_step(rv, g, i as int);
        }
        let row = &rows[i];
        assert(rv[i as int] == row@);
        if row.len() == 4 {
            if let (Some(Field::IntLike(o)), Some(Field::IntLike(pc)), Some(Field::Double(v)), Some(Field::IntLike(u))) = (&row[0], &row[1], &row[2], &row[3]) {
                let used = if *u == 9110 {
                    true
                } else {
                    match to_u32(*u) {
                        Some(u32_code) => unit_index(units, u32_code).is_some(),
                        None => {
                            proof { lemma_first_err_prefix(rv, g, i + 1); }
                            return Err(CompileError::CodeOutOfRange);
                        },
                    }
                };
                if used {
                    match (to_u32(*o), to_u32(*pc)) {
                        (Some(o), Some(pc)) => out.push((o, ParamValue { code: pc, value: v.duplicate(), uom: *u as u32 })),
                        _ => {
                            proof { lemma_first_err_prefix(rv, g, i + 1); }
                            return Err(CompileError::CodeOutOfRange);
                        },
                    }
                }
            }
        }
        i = i + 1;
    }
    assert(rv.subrange(0, i as int) == rv);
    Ok(out)
}

/// The code of the Greenwich prime meridian.
pub const GREENWICH: u32 = 8901;

pub open spec fn datum_err(row: Seq<Option<Field>>) -> Option<CompileError> {
    if row.len() == 3 && int_cell(row[0]) is Some && int_cell(row[1]) is Some && int_cell(row[2]) is Some
        && !(fits_u32(int_cell(row[0])->0) && fits_u32(int_cell(row[1])->0) && fits_u32(int_cell(row[2])->0)) {
        Some(CompileError::CodeOutOfRange)
    } else {
        None
    }
}

/// A datum on the Greenwich meridian whose ellipsoid is known, as its code
/// and its ellipsoid's code.
pub open spec fn datum_of(ellipsoids: Seq<u32>, row: Seq<Option<Field>>) -> Option<(u32, u32)> {
    if row.len() == 3 && int_cell(row[0]) is Some && int_cell(row[1]) is Some && int_cell(row[2]) is Some
        && fits_u32(int_cell(row[0])->0) && fits_u32(int_cell(row[1])->0) && int_cell(row[2])->0 == GREENWICH
        && ellipsoids.contains(int_cell(row[1])->0 as u32) {
        Some((int_cell(row[0])->0 as u32, int_cell(row[1])->0 as u32))
    } else {
        None
    }
}

fn contains_code(v: &Vec<u32>, x: u32) -> (r: bool)
    ensures
        r == v@.contains(x),
{
    let mut i: usize = 0;
    while i < v.len()
        invariant
            i <= v@.len(),
            forall|j: int| 0 <= j < i ==> v@[j] != x,
        decreases v@.len() - i,
    {
        if v[i] == x {
            return true;
        }
        i = i + 1;
    }
    false
}

/// The datums among the rows `[datum_code, ellipsoid_code, prime_meridian_code]`
/// that lie on the Greenwich meridian and use one of `ellipsoids`.
pub fn read_datums(rows: &Vec<Row>, ellipsoids: &Vec<u32>) -> (r: Result<Vec<(u32, u32)>, CompileError>)
    ensures
        match first_err(row_views(rows@), datum_err_fn()) {
            Some(e) => r == Err::<Vec<(u32, u32)>, CompileError>(e),
            None => r matches Ok(v) && v@ == keep(row_views(rows@), datum_of_fn(ellipsoids@)),
        },
{
    let ghost rv = row_views(rows@);
    let ghost f = datum_of_fn(ellipsoids@);
    let ghost g = datum_err_fn();
    let mut out: Vec<(u32, u32)> = Vec::new();
    let mut i: usize = 0;
    while i < rows.len()
        invariant
            i <= rows@.len(),
            rv == row_views(rows@),
            f == datum_of_fn(ellipsoids@),
            g == datum_err_fn(),
            out@ == keep(rv.subrange(0, i as int), f),
            first_err(rv.subrange(0, i as int), g) is None,
        decreases rows@.len() - i,
    {
        proof {
            lemma_keep_step(rv, f, i as int);
            lemma_first_err_step(rv, g, i as int);
        }
        let row = &rows[i];
        assert(rv[i as int] == row@);
        if row.len() == 3 {
            if let (Some(Field::IntLike(c)), Some(Field::IntLike(e)), Some(Field::IntLike(pm))) = (&row[0], &row[1], &row[2]) {
                match (to_u32(*c), to_u32(*e), to_u32(*pm)) {
                    (Some(c), Some(e), Some(pm)) => {
                        if pm == GREENWICH && contains_code(ellipsoids, e) {
                            out.push((c, e));
                        }
                    },
                    _ => {
                        proof { lemma_first_err_prefix(rv, g, i + 1); }
                        return Err(CompileError::CodeOutOfRange);
                    },
                }
            }
        }
        i = i + 1;
    }
    assert(rv.subrange(0, i as int) == rv);
    Ok(out)
}

pub open spec fn member_err(row: Seq<Option<Field>>) -> Option<CompileError> {
    if !(row.len() == 2 && int_cell(row[0]) is Some && int_cell(row[1]) is Some) {
        Some(CompileError::MissingCode)
    } else if !(fits_u32(int_cell(row[0])->0) && fits_u32(int_cell(row[1])->0)) {
        Some(CompileError::CodeOutOfRange)
    } else {
        None
    }
}

pub open spec fn member_of(row: Seq<Option<Field>>) -> Option<(u32, u32)> {
    if member_err(row) is None {
        Some((int_cell(row[0])->0 as u32, int_cell(row[1])->0 as u32))
    } else {
        None
    }
}

/// The members of the datum ensembles, from the rows `[datum_ensemble_code, datum_code]`.
pub fn read_members(rows: &Vec<Row>) -> (r: Result<Vec<(u32, u32)>, CompileError>)
    ensures
        match first_err(row_views(rows@), member_err_fn()) {
            Some(e) => r == Err::<Vec<(u32, u32)>, CompileError>(e),
            None => r matches Ok(v) && v@ == keep(row_views(rows@), member_of_fn()),
        },
{
    let ghost rv = row_views(rows@);
    let ghost f = member_of_fn();
    let ghost g = member_err_fn();
    let mut out: Vec<(u32, u32)> = Vec::new();
    let mut i: usize = 0;
    while i < rows.len()
        invariant
            i <= rows@.len(),
            rv == row_views(rows@),
            f == member_of_fn(),
            g == member_err_fn(),
            out@ == keep(rv.subrange(0, i as int), f),
            first_err(rv.subrange(0, i as int), g) is None,
        decreases rows@.len() - i,
    {
        proof {
            lemma_keep_step(rv, f, i as int);
            lemma_first_err_step(rv, g, i as int);
        }
        let row = &rows[i];
        assert(rv[i as int] == row@);
        let pair = if row.len() == 2 {
            match (&row[0], &row[1]) {
                (Some(Field::IntLike(e)), Some(Field::IntLike(d))) => Some((*e, *d)),
                _ => None,
            }
        } else {
            None
        };
        match pair {
            Some((e, d)) => match (to_u32(e), to_u32(d)) {
                (Some(e), Some(d)) => out.push((e, d)),
                _ => {
                    proof { lemma_first_err_prefix(rv, g, i + 1); }
                    return Err(CompileError::CodeOutOfRange);
                },
            },
            None => {
                proof { lemma_first_err_prefix(rv, g, i + 1); }
                return Err(CompileError::MissingCode);
            },
        }
        i = i + 1;
    }
    assert(rv.subrange(0, i as int) == rv);
    Ok(out)
}

/// How an ellipsoid's shape is recorded beside its semi-major axis.
#[derive(Debug, PartialEq, Eq)]
pub enum EllipsoidShape {
    SemiMinorAxis(Decimal),
    InverseFlattening(Decimal),
}

/// An ellipsoid as the registry records it, with the unit of its axes.
#[derive(Debug, PartialEq, Eq)]
pub struct EllipsoidRecipe {
    pub code: u32,
    pub semi_major: Decimal,
    pub shape: EllipsoidShape,
    pub unit: Unit,
}

pub open spec fn ell_err(units: Seq<Unit>, row: Seq<Option<Field>>) -> Option<CompileError> {
    if !(row.len() == 5 && int_cell(row[0]) is Some && int_cell(row[4]) is Some) {
        Some(CompileError::MissingCode)
    } else if !(fits_u32(int_cell(row[4])->0) && find_unit(units, int_cell(row[4])->0 as u32) is Some) {
        Some(CompileError::UnknownUnit)
    } else if !(dec_cell(row[1]) is Some && (dec_cell(row[2]) is Some || dec_cell(row[3]) is Some)) {
        Some(CompileError::MalformedEllipsoid)
    } else if !fits_u32(int_cell(row[0])->0) {
        Some(CompileError::CodeOutOfRange)
    } else {
        None
    }
}

pub open spec fn ell_of(units: Seq<Unit>, row: Seq<Option<Field>>) -> Option<EllipsoidRecipe> {
    if ell_err(units, row) is None {
        Some(EllipsoidRecipe {
            code: int_cell(row[0])->0 as u32,
            semi_major: dec_cell(row[1])->0,
            shape: if dec_cell(row[2]) is Some {
                EllipsoidShape::SemiMinorAxis(dec_cell(row[2])->0)
            } else {
                EllipsoidShape::InverseFlattening(dec_cell(row[3])->0)
            },
            unit: find_unit(units, int_cell(row[4])->0 as u32)->0,
        })
    } else {
        None
    }
}

fn unit_duplicate(u: &Unit) -> (r: Unit)
    ensures
        r == *u,
{
    Unit { code: u.code, factor_b: u.factor_b.duplicate(), factor_c: u.factor_c.duplicate() }
}

/// The ellipsoids of the rows `[ellipsoid_code, semi_major_axis,
/// semi_minor_axis, inv_flattening, uom_code]`, each with its unit.
pub fn read_ellipsoids(rows: &Vec<Row>, units: &Vec<Unit>) -> (r: Result<Vec<EllipsoidRecipe>, CompileError>)
    ensures
        match first_err(row_views(rows@), ell_err_fn(units@)) {
            Some(e) => r == Err::<Vec<EllipsoidRecipe>, CompileError>(e),
            None => r matches Ok(v) && v@ == keep(row_views(rows@), ell_of_fn(units@)),
        },
{
    let ghost rv = row_views(rows@);
    let ghost f = ell_of_fn(units@);
    let ghost g = ell_err_fn(units@);
    let mut out: Vec<EllipsoidRecipe> = Vec::new();
    let mut i: usize = 0;
    while i < rows.len()
        invariant
            i <= rows@.len(),
            rv == row_views(rows@),
            f == ell_of_fn(units@),
            g == ell_err_fn(units@),
            out@ == keep(rv.subrange(0, i as int), f),
            first_err(rv.subrange(0, i as int), g) is None,
        decreases rows@.len() - i,
    {
        proof {
            lemma_keep_step(rv, f, i as int);
            lemma_first_err_step(rv, g, i as int);
        }
        let row = &rows[i];
        assert(rv[i as int] == row@);
        let (code, uom) = match if row.len() == 5 { (&row[0], &row[4]) } else { (&None, &None) } {
            (Some(Field::IntLike(c)), Some(Field::IntLike(u))) => (*c, *u),
            _ => {
                proof { lemma_first_err_prefix(rv, g, i + 1); }
                return Err(CompileError::MissingCode);
            },
        };
        let unit = match to_u32(uom) {
            Some(u) => match unit_index(units, u) {
                Some(k) => unit_duplicate(&units[k]),
                None => {
                    proof { lemma_first_err_prefix(rv, g, i + 1); }
                    return Err(CompileError::UnknownUnit);
                },
            },
            None => {
                proof { lemma_first_err_prefix(rv, g, i + 1); }
                return Err(CompileError::UnknownUnit);
            },
        };
        let (semi_major, shape) = match (&row[1], &row[2], &row[3]) {
            (Some(Field::Double(a)), Some(Field::Double(b)), _) => (a.duplicate(), EllipsoidShape::SemiMinorAxis(b.duplicate())),
            (Some(Field::Double(a)), _, Some(Field::Double(fi))) => (a.duplicate(), EllipsoidShape::InverseFlattening(fi.duplicate())),
            _ => {
                proof { lemma_first_err_prefix(rv, g, i + 1); }
                return Err(CompileError::MalformedEllipsoid);
            },
        };
        let code = match to_u32(code) {
            Some(c) => c,
            None => {
                proof { lemma_first_err_prefix(rv, g, i + 1); }
                return Err(CompileError::CodeOutOfRange);
            },
        };
        out.push(EllipsoidRecipe { code, semi_major, shape, unit });
        i = i + 1;
    }
    assert(rv.subrange(0, i as int) == rv);
    Ok(out)
}

/// The projection families that the kernel implements.
#[derive(Debug, Clone, Copy, PartialEq, Eq, Structural)]
pub enum Method {
    TransverseMercator,
    LambertAzimuthalEqualArea,
    PolarStereographicA,
    LambertConic2SP,
    PopVisPseudoMercator,
    LambertConic1SPA,
    ObliqueStereographic,
    AlbersEqualArea,
}

/// The family that an EPSG operation method code names.
pub open spec fn method_for(code: u32) -> Option<Method> {
    if code == 9807 {
        Some(Method::TransverseMercator)
    } else if code == 9820 {
        Some(Method::LambertAzimuthalEqualArea)
    } else if code == 9810 {
        Some(Method::PolarStereographicA)
    } else if code == 9802 {
        Some(Method::LambertConic2SP)
    } else if code == 1024 {
        Some(Method::PopVisPseudoMercator)
    } else if code == 9801 {
        Some(Method::LambertConic1SPA)
    } else if code == 9809 {
        Some(Method::ObliqueStereographic)
    } else if code == 9822 {
        Some(Method::AlbersEqualArea)
    } else {
        None
    }
}

pub fn projection_method(code: u32) -> (r: Option<Method>)
    ensures
        r == method_for(code),
{
    if code == 9807 {
        Some(Method::TransverseMercator)
    } else if code == 9820 {
        Some(Method::LambertAzimuthalEqualArea)
    } else if code == 9810 {
        Some(Method::PolarStereographicA)
    } else if code == 9802 {
        Some(Method::LambertConic2SP)
    } else if code == 1024 {
        Some(Method::PopVisPseudoMercator)
    } else if code == 9801 {
        Some(Method::LambertConic1SPA)
    } else if code == 9809 {
        Some(Method::ObliqueStereographic)
    } else if code == 9822 {
        Some(Method::AlbersEqualArea)
    } else {
        None
    }
}

/// The parameter codes that a family's constructor reads.
pub open spec fn required_params(m: Method) -> Seq<u32> {
    match m {
        Method::TransverseMercator => seq![8802u32, 8801, 8805, 8806, 8807],
        Method::LambertAzimuthalEqualArea => seq![8802u32, 8801, 8806, 8807],
        Method::PolarStereographicA => seq![8802u32, 8801, 8805, 8806, 8807],
        Method::LambertConic2SP => seq![8822u32, 8821, 8823, 8824, 8826, 8827],
        Method::PopVisPseudoMercator => seq![8802u32, 8801, 8806, 8807],
        Method::LambertConic1SPA => seq![8802u32, 8801, 8805, 8806, 8807],
        Method::ObliqueStereographic => seq![8802u32, 8801, 8805, 8806, 8807],
        Method::AlbersEqualArea => seq![8822u32, 8821, 8823, 8824, 8826, 8827],
    }
}

pub fn required_parameters(m: Method) -> (r: Vec<u32>)
    ensures
        r@ == required_params(m),
{
    let r = match m {
        Method::TransverseMercator => vec![8802u32, 8801, 8805, 8806, 8807],
        Method::LambertAzimuthalEqualArea => vec![8802u32, 8801, 8806, 8807],
        Method::PolarStereographicA => vec![8802u32, 8801, 8805, 8806, 8807],
        Method::LambertConic2SP => vec![8822u32, 8821, 8823, 8824, 8826, 8827],
        Method::PopVisPseudoMercator => vec![8802u32, 8801, 8806, 8807],
        Method::LambertConic1SPA => vec![8802u32, 8801, 8805, 8806, 8807],
        Method::ObliqueStereographic => vec![8802u32, 8801, 8805, 8806, 8807],
        Method::AlbersEqualArea => vec![8822u32, 8821, 8823, 8824, 8826, 8827],
    };
    assert(r@ =~= required_params(m));
    r
}

/// Whether `ps` has a value for each of the codes `req`.
pub open spec fn has_params(ps: Seq<ParamValue>, req: Seq<u32>) -> bool {
    forall|k: int| 0 <= k < req.len() ==> exists|j: int| 0 <= j < ps.len() && ps[j].code == #[trigger] req[k]
}

/// Whether `ps` has a value for each parameter that the family `m` reads.
pub fn has_required_params(ps: &Vec<ParamValue>, m: Method) -> (r: bool)
    ensures
        r == has_params(ps@, required_params(m)),
{
    let req = required_parameters(m);
    let mut k: usize = 0;
    while k < req.len()
        invariant
            req@ == required_params(m),
            k <= req@.len(),
            forall|q: int| 0 <= q < k ==> exists|j: int| 0 <= j < ps@.len() && ps@[j].code == #[trigger] req@[q],
        decreases req@.len() - k,
    {
        let mut j: usize = 0;
        let mut found = false;
        while j < ps.len()
            invariant
                j <= ps@.len(),
                k < req@.len(),
                found ==> exists|i: int| 0 <= i < ps@.len() && ps@[i].code == req@[k as int],
                !found ==> forall|i: int| 0 <= i < j ==> ps@[i].code != req@[k as int],
            decreases ps@.len() - j,
        {
            if ps[j].code == req[k] {
                found = true;
            }
            j = j + 1;
        }
        if !found {
            assert(!has_params(ps@, required_params(m))) by {
                if has_params(ps@, required_params(m)) {
                    assert(exists|i: int| 0 <= i < ps@.len() && ps@[i].code == req@[k as int]);
                }
            }
            return false;
        }
        k = k + 1;
    }
    true
}

/// What the registry tables say, decoded.
#[derive(Debug)]
pub struct RegistryTables {
    pub crs: Vec<(u32, CrsEntry)>,
    pub names: Vec<(u32, String)>,
    pub usages: Vec<(u32, Extent)>,
    pub ops: Vec<(u32, u32)>,
    pub params: Vec<(u32, ParamValue)>,
    pub datums: Vec<(u32, u32)>,
    pub members: Vec<(u32, u32)>,
}

/// What becomes of one coordinate reference system.
#[derive(Debug)]
pub enum Plan {
    Identity,
    Projected { method: Method, ellipsoid: u32, conversion: u32 },
}

/// The value of an entry stored under `k`.
pub open spec fn value_under<X>(k: u32) -> spec_fn((u32, X)) -> Option<X> {
    |p: (u32, X)| if p.0 == k { Some(p.1) } else { None }
}

/// The member datums of an ensemble, in order.
pub open spec fn members_of(members: Seq<(u32, u32)>, d: u32) -> Seq<u32> {
    keep(members, value_under::<u32>(d))
}

/// The ellipsoid of the first candidate datum that resolves.
pub open spec fn first_resolving(datums: Seq<(u32, u32)>, cands: Seq<u32>) -> Option<u32>
    decreases cands.len(),
{
    if cands.len() == 0 {
        None
    } else {
        match lookup(datums, cands[0]) {
            Some(e) => Some(e),
            None => first_resolving(datums, cands.drop_first()),
        }
    }
}

/// The ellipsoid of a datum: its own, or else that of the first member of the
/// ensemble it names that resolves.
pub open spec fn datum_ellipsoid(datums: Seq<(u32, u32)>, members: Seq<(u32, u32)>, d: u32) -> Option<u32> {
    first_resolving(datums, seq![d] + members_of(members, d))
}

pub open spec fn params_for(params: Seq<(u32, ParamValue)>, conv: u32) -> Seq<ParamValue> {
    keep(params, value_under::<ParamValue>(conv))
}

pub open spec fn areas_for(usages: Seq<(u32, Extent)>, code: u32) -> Seq<Extent> {
    keep(usages, value_under::<Extent>(code))
}

pub open spec fn name_for(names: Seq<(u32, String)>, code: u32) -> Seq<char> {
    match lookup(names, code) {
        Some(n) => n@,
        None => "Unknown Coordinate Reference System"@,
    }
}

/// The code that always stands for the identity: WGS 84 in degrees.
pub const WGS84: u32 = 4326;

/// The plan for one system: WGS 84 and geographic 2-D systems map to the identity; a
/// projected one is kept when its base is a known geographic 2-D system whose
/// datum resolves to an ellipsoid, and
/// the conversion's method is implemented and has a value for every
/// parameter that its family reads.
pub open spec fn plan_of(t: RegistryTables, e: (u32, CrsEntry)) -> Option<(u32, Plan)> {
    if e.0 == WGS84 {
        Some((e.0, Plan::Identity))
    } else {
        plan_of_kind(t, e)
    }
}

pub open spec fn plan_of_kind(t: RegistryTables, e: (u32, CrsEntry)) -> Option<(u32, Plan)> {
    match e.1 {
        CrsEntry::Geographic2D { .. } => Some((e.0, Plan::Identity)),
        CrsEntry::Projected { conversion, base } => match lookup(t.crs@, base) {
            Some(CrsEntry::Geographic2D { datum }) => match datum_ellipsoid(t.datums@, t.members@, datum) {
                Some(ell) => if lookup(t.ops@, conversion) is Some && method_for(lookup(t.ops@, conversion)->0) is Some
                    && has_params(params_for(t.params@, conversion), required_params(method_for(lookup(t.ops@, conversion)->0)->0)) {
                    Some((e.0, Plan::Projected {
                        method: method_for(lookup(t.ops@, conversion)->0)->0,
                        ellipsoid: ell,
                        conversion,
                    }))
                } else {
                    None
                },
                None => None,
            },
            _ => None,
        },
    }
}

pub open spec fn plan_fn(t: RegistryTables) -> spec_fn((u32, CrsEntry)) -> Option<(u32, Plan)> {
    |e: (u32, CrsEntry)| plan_of(t, e)
}

pub open spec fn crs_codes(s: Seq<(u32, CrsEntry)>) -> Seq<u32> {
    s.map_values(|e: (u32, CrsEntry)| e.0)
}

/// The entries of `s` whose code no earlier entry has, in order: the first
/// row of each code counts, as every lookup by code takes the first.
pub open spec fn first_of_each(s: Seq<(u32, CrsEntry)>) -> Seq<(u32, CrsEntry)>
    decreases s.len(),
{
    if s.len() == 0 {
        Seq::empty()
    } else if crs_codes(s.drop_last()).contains(s.last().0) {
        first_of_each(s.drop_last())
    } else {
        first_of_each(s.drop_last()).push(s.last())
    }
}

/// The plans of the systems, one per code.
pub open spec fn plans(t: RegistryTables) -> Seq<(u32, Plan)> {
    keep(first_of_each(t.crs@), plan_fn(t))
}

/// `first_of_each` keeps codes of `s` only, and each once.
pub proof fn lemma_first_of_each(s: Seq<(u32, CrsEntry)>)
    ensures
        forall|i: int, j: int| 0 <= i < j < first_of_each(s).len() ==> first_of_each(s)[i].0 != first_of_each(s)[j].0,
        forall|i: int| 0 <= i < first_of_each(s).len() ==> crs_codes(s).contains(#[trigger] first_of_each(s)[i].0),
    decreases s.len(),
{
    if s.len() > 0 {
        let d = s.drop_last();
        lemma_first_of_each(d);
        let fd = first_of_each(d);
        assert forall|i: int| 0 <= i < first_of_each(s).len() implies crs_codes(s).contains(#[trigger] first_of_each(s)[i].0) by {
            if i < fd.len() {
                let k = choose|k: int| 0 <= k < crs_codes(d).len() && crs_codes(d)[k] == fd[i].0;
                assert(crs_codes(s)[k] == fd[i].0);
            } else {
                assert(crs_codes(s)[s.len() - 1] == s.last().0);
            }
        }
        if !crs_codes(d).contains(s.last().0) {
            assert forall|i: int, j: int| 0 <= i < j < first_of_each(s).len() implies first_of_each(s)[i].0 != first_of_each(s)[j].0 by {
                if j == fd.len() {
                    assert(crs_codes(d).contains(fd[i].0));
                }
            }
        }
    }
}

/// Plans keep the codes of distinct entries distinct.
pub proof fn lemma_keep_plans_distinct(t: RegistryTables, s: Seq<(u32, CrsEntry)>)
    requires
        forall|i: int, j: int| 0 <= i < j < s.len() ==> s[i].0 != s[j].0,
    ensures
        forall|i: int, j: int| 0 <= i < j < keep(s, plan_fn(t)).len() ==> keep(s, plan_fn(t))[i].0 != keep(s, plan_fn(t))[j].0,
        forall|i: int| 0 <= i < keep(s, plan_fn(t)).len() ==> exists|k: int| 0 <= k < s.len() && s[k].0 == #[trigger] keep(s, plan_fn(t))[i].0,
    decreases s.len(),
{
    if s.len() > 0 {
        let d = s.drop_last();
        assert forall|i: int, j: int| 0 <= i < j < d.len() implies d[i].0 != d[j].0 by {
            assert(d[i] == s[i] && d[j] == s[j]);
        }
        lemma_keep_plans_distinct(t, d);
        let kd = keep(d, plan_fn(t));
        let ks = keep(s, plan_fn(t));
        assert forall|i: int| 0 <= i < ks.len() implies exists|k: int| 0 <= k < s.len() && s[k].0 == #[trigger] ks[i].0 by {
            if i < kd.len() {
                let k = choose|k: int| 0 <= k < d.len() && d[k].0 == kd[i].0;
                assert(s[k] == d[k]);
            } else {
                assert(s[s.len() - 1].0 == ks[i].0);
            }
        }
        assert forall|i: int, j: int| 0 <= i < j < ks.len() implies ks[i].0 != ks[j].0 by {
            if j >= kd.len() {
                let k = choose|k: int| 0 <= k < d.len() && d[k].0 == kd[i].0;
                assert(s[k] == d[k]);
                assert(ks[j].0 == s[s.len() - 1].0);
            }
        }
    }
}

/// No two plans share a code.
pub proof fn lemma_plans_distinct(t: RegistryTables)
    ensures
        forall|i: int, j: int| 0 <= i < j < plans(t).len() ==> plans(t)[i].0 != plans(t)[j].0,
{
    lemma_first_of_each(t.crs@);
    lemma_keep_plans_distinct(t, first_of_each(t.crs@));
}

fn keyed_values(m: &Vec<(u32, u32)>, d: u32) -> (r: Vec<u32>)
    ensures
        r@ == members_of(m@, d),
{
    let ghost f = value_under::<u32>(d);
    let mut out: Vec<u32> = Vec::new();
    let mut i: usize = 0;
    while i < m.len()
        invariant
            i <= m@.len(),
            f == value_under::<u32>(d),
            out@ == keep(m@.subrange(0, i as int), f),
        decreases m@.len() - i,
    {
        proof { lemma_keep_step(m@, f, i as int); }
        if m[i].0 == d {
            out.push(m[i].1);
        }
        i = i + 1;
    }
    assert(m@.subrange(0, i as int) == m@);
    out
}

/// The ellipsoid that a datum resolves to.
pub fn resolve_datum(datums: &Vec<(u32, u32)>, members: &Vec<(u32, u32)>, d: u32) -> (r: Option<u32>)
    ensures
        r == datum_ellipsoid(datums@, members@, d),
{
    let mut cands: Vec<u32> = vec![d];
    let others = keyed_values(members, d);
    let mut j: usize = 0;
    while j < others.len()
        invariant
            j <= others@.len(),
            cands@ == seq![d] + others@.subrange(0, j as int),
        decreases others@.len() - j,
    {
        cands.push(others[j]);
        j = j + 1;
        assert(cands@ =~= seq![d] + others@.subrange(0, j as int));
    }
    assert(others@.subrange(0, j as int) == others@);
    let ghost all = cands@;
    assert(all.subrange(0, all.len() as int) == all);
    let mut i: usize = 0;
    while i < cands.len()
        invariant
            all == cands@,
            all == seq![d] + members_of(members@, d),
            i <= cands@.len(),
            first_resolving(datums@, all) == first_resolving(datums@, all.subrange(i as int, all.len() as int)),
        decreases cands@.len() - i,
    {
        let ghost rest = all.subrange(i as int, all.len() as int);
        assert(rest.drop_first() =~= all.subrange(i + 1, all.len() as int));
        assert(rest[0] == cands@[i as int]);
        match find_key(datums, cands[i]) {
            Some(k) => {
                assert(rest.len() > 0);
                assert(lookup(datums@, rest[0]) == Some(datums@[k as int].1));
                assert(first_resolving(datums@, rest) == Some(datums@[k as int].1));
                return Some(datums[k].1);
            },
            None => {},
        }
        i = i + 1;
    }
    None
}

fn params_of(params: &Vec<(u32, ParamValue)>, conv: u32) -> (r: Vec<ParamValue>)
    ensures
        r@ == params_for(params@, conv),
{
    let ghost f = value_under::<ParamValue>(conv);
    let mut out: Vec<ParamValue> = Vec::new();
    let mut i: usize = 0;
    while i < params.len()
        invariant
            i <= params@.len(),
            f == value_under::<ParamValue>(conv),
            out@ == keep(params@.subrange(0, i as int), f),
        decreases params@.len() - i,
    {
        proof { lemma_keep_step(params@, f, i as int); }
        if params[i].0 == conv {
            out.push(params[i].1.duplicate());
        }
        i = i + 1;
    }
    assert(params@.subrange(0, i as int) == params@);
    out
}

pub(crate) fn areas_of(usages: &Vec<(u32, Extent)>, code: u32) -> (r: Vec<Extent>)
    ensures
        r@ == areas_for(usages@, code),
{
    let ghost f = value_under::<Extent>(code);
    let mut out: Vec<Extent> = Vec::new();
    let mut i: usize = 0;
    while i < usages.len()
        invariant
            i <= usages@.len(),
            f == value_under::<Extent>(code),
            out@ == keep(usages@.subrange(0, i as int), f),
        decreases usages@.len() - i,
    {
        proof { lemma_keep_step(usages@, f, i as int); }
        if usages[i].0 == code {
            out.push(usages[i].1.duplicate());
        }
        i = i + 1;
    }
    assert(usages@.subrange(0, i as int) == usages@);
    out
}

pub(crate) fn name_of_code(names: &Vec<(u32, String)>, code: u32) -> (r: String)
    ensures
        r@ == name_for(names@, code),
{
    match find_key(names, code) {
        Some(k) => names[k].1.clone(),
        None => "Unknown Coordinate Reference System".to_owned(),
    }
}

/// Decides what becomes of one system.
pub fn plan_entry(t: &RegistryTables, e: (u32, CrsEntry)) -> (r: Option<Plan>)
    ensures
        r matches Some(p) ==> plan_of(*t, e) == Some((e.0, p)),
        r is None ==> plan_of(*t, e) is None,
{
    if e.0 == WGS84 {
        return Some(Plan::Identity);
    }
    match e.1 {
        CrsEntry::Geographic2D { .. } => Some(Plan::Identity),
        CrsEntry::Projected { conversion, base } => {
            let datum = match find_key(&t.crs, base) {
                Some(k) => match t.crs[k].1 {
                    CrsEntry::Geographic2D { datum } => datum,
                    _ => return None,
                },
                None => return None,
            };
            let ell = match resolve_datum(&t.datums, &t.members, datum) {
                Some(ell) => ell,
                None => return None,
            };
            let method = match find_key(&t.ops, conversion) {
                Some(k) => match projection_method(t.ops[k].1) {
                    Some(m) => m,
                    None => return None,
                },
                None => return None,
            };
            if !has_required_params(&params_of(&t.params, conversion), method) {
                return None;
            }
            Some(Plan::Projected { method, ellipsoid: ell, conversion })
        },
    }
}

/// How a system is projected.
#[derive(Debug)]
pub enum ProjectionRecipe {
    /// Geographic 2-D: coordinates pass through unchanged.
    Identity,
    Projected { method: Method, ellipsoid: u32, params: Vec<ParamValue> },
}

/// One compiled coordinate reference system.
#[derive(Debug)]
pub struct CrsRecord {
    pub code: u32,
    pub name: String,
    pub projection: ProjectionRecipe,
    pub areas: Vec<Extent>,
}

/// `rec` is what the plan `p` for `code` compiles to.
pub open spec fn record_matches(rec: CrsRecord, t: RegistryTables, code: u32, p: Plan) -> bool {
    &&& rec.code == code
    &&& rec.name@ == name_for(t.names@, code)
    &&& rec.areas@ == areas_for(t.usages@, code)
    &&& match p {
        Plan::Identity => rec.projection is Identity,
        Plan::Projected { method, ellipsoid, conversion } => match rec.projection {
            ProjectionRecipe::Projected { method: m, ellipsoid: e, params } => m == method && e == ellipsoid
                && params@ == params_for(t.params@, conversion),
            ProjectionRecipe::Identity => false,
        },
    }
}

/// Compiles the decoded tables: one record for each system that is kept, in
/// the order of the system table.
pub fn compile(t: &RegistryTables) -> (r: Vec<CrsRecord>)
    ensures
        r@.len() == plans(*t).len(),
        forall|i: int| 0 <= i < r@.len() ==> record_matches(#[trigger] r@[i], *t, plans(*t)[i].0, plans(*t)[i].1),
{
    let ghost f = plan_fn(*t);
    let mut out: Vec<CrsRecord> = Vec::new();
    let mut seen: Vec<u32> = Vec::new();
    let mut i: usize = 0;
    while i < t.crs.len()
        invariant
            i <= t.crs@.len(),
            f == plan_fn(*t),
            seen@ == crs_codes(t.crs@.subrange(0, i as int)),
            out@.len() == keep(first_of_each(t.crs@.subrange(0, i as int)), f).len(),
            forall|j: int| 0 <= j < out@.len() ==> record_matches(#[trigger] out@[j], *t, keep(first_of_each(t.crs@.subrange(0, i as int)), f)[j].0, keep(first_of_each(t.crs@.subrange(0, i as int)), f)[j].1),
        decreases t.crs@.len() - i,
    {
        let ghost pre = t.crs@.subrange(0, i as int);
        let ghost nxt = t.crs@.subrange(0, i + 1);
        assert(nxt.drop_last() == pre);
        assert(nxt.last() == t.crs@[i as int]);
        let e = t.crs[i];
        if contains_code(&seen, e.0) {
            assert(first_of_each(nxt) == first_of_each(pre));
        } else {
            let ghost fe = first_of_each(pre);
            assert(first_of_each(nxt) == fe.push(e));
            assert(fe.push(e).drop_last() == fe);
            match plan_entry(t, e) {
                Some(p) => {
                    let projection = match p {
                        Plan::Identity => ProjectionRecipe::Identity,
                        Plan::Projected { method, ellipsoid, conversion } => ProjectionRecipe::Projected {
                            method,
                            ellipsoid,
                            params: params_of(&t.params, conversion),
                        },
                    };
                    let rec = CrsRecord {
                        code: e.0,
                        name: name_of_code(&t.names, e.0),
                        projection,
                        areas: areas_of(&t.usages, e.0),
                    };
                    proof {
                        let ghost k = keep(fe.push(e), f);
                        assert(k == keep(fe, f).push((e.0, p)));
                    }
                    out.push(rec);
                },
                None => {
                    assert(keep(fe.push(e), f) == keep(fe, f));
                },
            }
        }
        seen.push(e.0);
        i = i + 1;
        assert(seen@ =~= crs_codes(t.crs@.subrange(0, i as int)));
    }
    assert(t.crs@.subrange(0, i as int) == t.crs@);
    out
}

pub open spec fn unit_of_fn() -> spec_fn(Seq<Option<Field>>) -> Option<Unit> {
    |row: Seq<Option<Field>>| unit_of(row)
}

pub open spec fn classify_fn() -> spec_fn(Seq<Option<Field>>) -> Option<(u32, CrsEntry)> {
    |row: Seq<Option<Field>>| classify(row)
}

pub open spec fn name_of_fn() -> spec_fn(Seq<Option<Field>>) -> Option<(u32, String)> {
    |row: Seq<Option<Field>>| name_of(row)
}

pub open spec fn extent_of_fn() -> spec_fn(Seq<Option<Field>>) -> Option<(u32, Extent)> {
    |row: Seq<Option<Field>>| extent_of(row)
}

pub open spec fn usage_of_fn(extents: Seq<(u32, Extent)>) -> spec_fn(Seq<Option<Field>>) -> Option<(u32, Extent)> {
    |row: Seq<Option<Field>>| usage_of(extents, row)
}

pub open spec fn op_err_fn() -> spec_fn(Seq<Option<Field>>) -> Option<CompileError> {
    |row: Seq<Option<Field>>| op_err(row)
}

pub open spec fn op_of_fn() -> spec_fn(Seq<Option<Field>>) -> Option<(u32, u32)> {
    |row: Seq<Option<Field>>| op_of(row)
}

pub open spec fn param_err_fn(units: Seq<Unit>) -> spec_fn(Seq<Option<Field>>) -> Option<CompileError> {
    |row: Seq<Option<Field>>| param_err(units, row)
}

pub open spec fn param_of_fn(units: Seq<Unit>) -> spec_fn(Seq<Option<Field>>) -> Option<(u32, ParamValue)> {
    |row: Seq<Option<Field>>| param_of(units, row)
}

pub open spec fn datum_err_fn() -> spec_fn(Seq<Option<Field>>) -> Option<CompileError> {
    |row: Seq<Option<Field>>| datum_err(row)
}

pub open spec fn datum_of_fn(ellipsoids: Seq<u32>) -> spec_fn(Seq<Option<Field>>) -> Option<(u32, u32)> {
    |row: Seq<Option<Field>>| datum_of(ellipsoids, row)
}

pub open spec fn member_err_fn() -> spec_fn(Seq<Option<Field>>) -> Option<CompileError> {
    |row: Seq<Option<Field>>| member_err(row)
}

pub open spec fn member_of_fn() -> spec_fn(Seq<Option<Field>>) -> Option<(u32, u32)> {
    |row: Seq<Option<Field>>| member_of(row)
}

pub open spec fn ell_err_fn(units: Seq<Unit>) -> spec_fn(Seq<Option<Field>>) -> Option<CompileError> {
    |row: Seq<Option<Field>>| ell_err(units, row)
}

pub open spec fn ell_of_fn(units: Seq<Unit>) -> spec_fn(Seq<Option<Field>>) -> Option<EllipsoidRecipe> {
    |row: Seq<Option<Field>>| ell_of(units, row)
}

} // verus!
