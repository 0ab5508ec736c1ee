use vstd::prelude::*;
use crate::compiler::{
    classify_fn, compile, datum_err_fn, datum_of_fn, ell_err_fn, ell_of_fn, extent_of_fn,
    first_err, keep, member_err_fn, member_of_fn, name_of_fn, op_err_fn, op_of_fn,
    param_err_fn, param_of_fn, plans, read_crs, read_datums, read_ellipsoids, read_extents,
    read_members, read_names, read_ops, read_params, read_units, read_usages, record_matches,
    row_views, unit_of_fn, areas_of, name_of_code, usage_of_fn, CompileError, CrsRecord, EllipsoidRecipe, Plan,
    ProjectionRecipe, RegistryTables, Row, Unit, WGS84, plan_of, lemma_keep_elements,
};
use crate::table::{str_views, Field, MemoryDb, Table};

verus! {

/// Every row of `t`, cut down to the selected columns.
pub open spec fn all_rows(t: Table, sel: Seq<Seq<char>>) -> Seq<Seq<Option<Field>>> {
    Seq::new(t.nrows(), |i: int| t.row(sel, i))
}

/// Whether the store holds the table `name` with all the selected columns.
pub open spec fn readable(db: MemoryDb, name: Seq<char>, sel: Seq<Seq<char>>) -> bool {
    db.table(name) matches Some(t) && t.has_all(sel)
}

/// The selected columns of every row of the table `name`.
pub open spec fn rows_of(db: MemoryDb, name: Seq<char>, sel: Seq<Seq<char>>) -> Seq<Seq<Option<Field>>> {
    all_rows(db.table(name)->0, sel)
}

/// Reads the selected columns of every row of a table.
pub fn read_table(db: &MemoryDb, name: &str, select: &[&str]) -> (r: Result<Vec<Row>, CompileError>)
    requires
        db.wf(),
    ensures
        match db.table(name@) {
            None => r == Err::<Vec<Row>, CompileError>(CompileError::MissingTable),
            Some(t) => if t.has_all(str_views(select@)) {
                r matches Ok(rows) && row_views(rows@) == all_rows(t, str_views(select@))
            } else {
                r == Err::<Vec<Row>, CompileError>(CompileError::MissingColumn)
            },
        },
{
    let t = match db.get_table(name) {
        Some(t) => t,
        None => return Err(CompileError::MissingTable),
    };
    match t.get_rows(select) {
        Ok(rows) => {
            assert(row_views(rows@) =~= all_rows(*t, str_views(select@)));
            Ok(rows)
        },
        Err(_) => Err(CompileError::MissingColumn),
    }
}

pub open spec fn ellipsoid_columns() -> Seq<Seq<char>> {
    seq!["ellipsoid_code"@, "semi_major_axis"@, "semi_minor_axis"@, "inv_flattening"@, "uom_code"@]
}

pub open spec fn unit_columns() -> Seq<Seq<char>> {
    seq!["uom_code"@, "factor_b"@, "factor_c"@]
}

/// Why the table `name` cannot be read with the selected columns, if it cannot.
pub open spec fn table_err(db: MemoryDb, name: Seq<char>, sel: Seq<Seq<char>>) -> Option<CompileError> {
    match db.table(name) {
        None => Some(CompileError::MissingTable),
        Some(t) => if t.has_all(sel) {
            None
        } else {
            Some(CompileError::MissingColumn)
        },
    }
}

pub open spec fn db_units(db: MemoryDb) -> Seq<Unit> {
    keep(rows_of(db, "epsg_unitofmeasure"@, unit_columns()), unit_of_fn())
}

/// Why the ellipsoids of a snapshot cannot be read, if they cannot.
pub open spec fn ellipsoids_err(db: MemoryDb) -> Option<CompileError> {
    if table_err(db, "epsg_ellipsoid"@, ellipsoid_columns()) is Some {
        table_err(db, "epsg_ellipsoid"@, ellipsoid_columns())
    } else if table_err(db, "epsg_unitofmeasure"@, unit_columns()) is Some {
        table_err(db, "epsg_unitofmeasure"@, unit_columns())
    } else {
        first_err(rows_of(db, "epsg_ellipsoid"@, ellipsoid_columns()), ell_err_fn(db_units(db)))
    }
}

fn read_listed(db: &MemoryDb, name: &str, select: &[&str], ghost_sel: Ghost<Seq<Seq<char>>>) -> (r: Result<Vec<Row>, CompileError>)
    requires
        db.wf(),
        str_views(select@) == ghost_sel@,
    ensures
        match table_err(*db, name@, ghost_sel@) {
            Some(e) => r == Err::<Vec<Row>, CompileError>(e),
            None => r matches Ok(rows) && row_views(rows@) == rows_of(*db, name@, ghost_sel@),
        },
{
    read_table(db, name, select)
}

/// The ellipsoids of a snapshot whose ellipsoid rows can be read.
pub open spec fn db_ellipsoids(db: MemoryDb) -> Seq<EllipsoidRecipe> {
    keep(rows_of(db, "epsg_ellipsoid"@, ellipsoid_columns()), ell_of_fn(db_units(db)))
}

/// Reads the ellipsoids of a snapshot, each with the unit of its axes.
pub fn get_ellipsoids(db: &MemoryDb) -> (r: Result<Vec<EllipsoidRecipe>, CompileError>)
    requires
        db.wf(),
    ensures
        match ellipsoids_err(*db) {
            Some(e) => r == Err::<Vec<EllipsoidRecipe>, CompileError>(e),
            None => r matches Ok(v) && v@ == db_ellipsoids(*db),
        },
{
    let sel: [&str; 5] = ["ellipsoid_code", "semi_major_axis", "semi_minor_axis", "inv_flattening", "uom_code"];
    assert(str_views(sel@) =~= ellipsoid_columns());
    let ell_rows = read_listed(db, "epsg_ellipsoid", &sel, Ghost(ellipsoid_columns()))?;
    let usel: [&str; 3] = ["uom_code", "factor_b", "factor_c"];
    assert(str_views(usel@) =~= unit_columns());
    let uom_rows = read_listed(db, "epsg_unitofmeasure", &usel, Ghost(unit_columns()))?;
    let units = read_units(&uom_rows);
    read_ellipsoids(&ell_rows, &units)
}

pub open spec fn crs_columns() -> Seq<Seq<char>> {
    seq!["coord_ref_sys_code"@, "base_crs_code"@, "projection_conv_code"@, "datum_code"@, "coord_ref_sys_kind"@]
}

pub open spec fn name_columns() -> Seq<Seq<char>> {
    seq!["coord_ref_sys_code"@, "coord_ref_sys_name"@]
}

pub open spec fn extent_columns() -> Seq<Seq<char>> {
    seq!["extent_code"@, "extent_name"@, "bbox_south_bound_lat"@, "bbox_west_bound_lon"@, "bbox_north_bound_lat"@, "bbox_east_bound_lon"@]
}

pub open spec fn usage_columns() -> Seq<Seq<char>> {
    seq!["object_code"@, "extent_code"@]
}

pub open spec fn op_columns() -> Seq<Seq<char>> {
    seq!["coord_op_code"@, "coord_op_method_code"@]
}

pub open spec fn param_columns() -> Seq<Seq<char>> {
    seq!["coord_op_code"@, "parameter_code"@, "parameter_value"@, "uom_code"@]
}

pub open spec fn datum_columns() -> Seq<Seq<char>> {
    seq!["datum_code"@, "ellipsoid_code"@, "prime_meridian_code"@]
}

pub open spec fn member_columns() -> Seq<Seq<char>> {
    seq!["datum_ensemble_code"@, "datum_code"@]
}

pub open spec fn db_crs(db: MemoryDb) -> Seq<(u32, crate::compiler::CrsEntry)> {
    keep(rows_of(db, "epsg_coordinatereferencesystem"@, crs_columns()), classify_fn())
}

pub open spec fn db_extents(db: MemoryDb) -> Seq<(u32, crate::compiler::Extent)> {
    keep(rows_of(db, "epsg_extent"@, extent_columns()), extent_of_fn())
}

pub open spec fn db_ops(db: MemoryDb) -> Seq<(u32, u32)> {
    keep(rows_of(db, "epsg_coordoperation"@, op_columns()), op_of_fn())
}

pub open spec fn ellipsoid_codes(ells: Seq<EllipsoidRecipe>) -> Seq<u32> {
    ells.map_values(|e: EllipsoidRecipe| e.code)
}

/// `t` holds what the snapshot's tables say.
pub open spec fn decoded(db: MemoryDb, ells: Seq<EllipsoidRecipe>, t: RegistryTables) -> bool {
    &&& t.crs@ == db_crs(db)
    &&& t.names@ == keep(rows_of(db, "epsg_coordinatereferencesystem"@, name_columns()), name_of_fn())
    &&& t.usages@ == keep(rows_of(db, "epsg_usage"@, usage_columns()), usage_of_fn(db_extents(db)))
    &&& t.ops@ == db_ops(db)
    &&& t.params@ == keep(rows_of(db, "epsg_coordoperationparamvalue"@, param_columns()), param_of_fn(db_units(db)))
    &&& t.datums@ == keep(rows_of(db, "epsg_datum"@, datum_columns()), datum_of_fn(ellipsoid_codes(ells)))
    &&& t.members@ == keep(rows_of(db, "epsg_datumensemblemember"@, member_columns()), member_of_fn())
}

/// Why a snapshot cannot be compiled, if it cannot: the first table that is
/// missing or lacks a column, that holds a bad row, or that is empty where
/// it must not be, in the order in which they are read.
pub open spec fn compile_err(db: MemoryDb, ells: Seq<EllipsoidRecipe>) -> Option<CompileError> {
    if table_err(db, "epsg_unitofmeasure"@, unit_columns()) is Some {
        table_err(db, "epsg_unitofmeasure"@, unit_columns())
    } else if table_err(db, "epsg_coordinatereferencesystem"@, crs_columns()) is Some {
        table_err(db, "epsg_coordinatereferencesystem"@, crs_columns())
    } else if db_crs(db).len() == 0 {
        Some(CompileError::EmptyTable)
    } else if table_err(db, "epsg_coordinatereferencesystem"@, name_columns()) is Some {
        table_err(db, "epsg_coordinatereferencesystem"@, name_columns())
    } else if table_err(db, "epsg_extent"@, extent_columns()) is Some {
        table_err(db, "epsg_extent"@, extent_columns())
    } else if table_err(db, "epsg_usage"@, usage_columns()) is Some {
        table_err(db, "epsg_usage"@, usage_columns())
    } else if table_err(db, "epsg_coordoperation"@, op_columns()) is Some {
        table_err(db, "epsg_coordoperation"@, op_columns())
    } else if first_err(rows_of(db, "epsg_coordoperation"@, op_columns()), op_err_fn()) is Some {
        first_err(rows_of(db, "epsg_coordoperation"@, op_columns()), op_err_fn())
    } else if table_err(db, "epsg_coordoperationparamvalue"@, param_columns()) is Some {
        table_err(db, "epsg_coordoperationparamvalue"@, param_columns())
    } else if first_err(rows_of(db, "epsg_coordoperationparamvalue"@, param_columns()), param_err_fn(db_units(db))) is Some {
        first_err(rows_of(db, "epsg_coordoperationparamvalue"@, param_columns()), param_err_fn(db_units(db)))
    } else if db_ops(db).len() == 0 {
        Some(CompileError::EmptyTable)
    } else if table_err(db, "epsg_datum"@, datum_columns()) is Some {
        table_err(db, "epsg_datum"@, datum_columns())
    } else if first_err(rows_of(db, "epsg_datum"@, datum_columns()), datum_err_fn()) is Some {
        first_err(rows_of(db, "epsg_datum"@, datum_columns()), datum_err_fn())
    } else if table_err(db, "epsg_datumensemblemember"@, member_columns()) is Some {
        table_err(db, "epsg_datumensemblemember"@, member_columns())
    } else {
        first_err(rows_of(db, "epsg_datumensemblemember"@, member_columns()), member_err_fn())
    }
}


pub open spec fn has_code(ps: Seq<(u32, Plan)>, code: u32) -> bool {
    exists|i: int| 0 <= i < ps.len() && ps[i].0 == code
}

/// `recs` is what the tables `t` compile to: one record per plan, and an
/// identity record for WGS 84 where no plan has that code.
pub open spec fn compiled(recs: Seq<CrsRecord>, t: RegistryTables) -> bool {
    let ps = plans(t);
    &&& recs.len() == ps.len() + if has_code(ps, WGS84) { 0int } else { 1int }
    &&& forall|i: int| 0 <= i < ps.len() ==> record_matches(#[trigger] recs[i], t, ps[i].0, ps[i].1)
    &&& !has_code(ps, WGS84) ==> record_matches(recs[ps.len() as int], t, WGS84, Plan::Identity)
}

/// No two records share a code.
pub open spec fn distinct_codes(recs: Seq<CrsRecord>) -> bool {
    forall|i: int, j: int| 0 <= i < j < recs.len() ==> recs[i].code != recs[j].code
}

/// Compiled tables hold each code once.
pub proof fn lemma_compiled_distinct(recs: Seq<CrsRecord>, t: RegistryTables)
    requires
        compiled(recs, t),
    ensures
        distinct_codes(recs),
{
    crate::compiler::lemma_plans_distinct(t);
    let ps = plans(t);
    assert forall|i: int, j: int| 0 <= i < j < recs.len() implies recs[i].code != recs[j].code by {
        assert(record_matches(recs[i], t, ps[i].0, ps[i].1));
        if j < ps.len() {
            assert(record_matches(recs[j], t, ps[j].0, ps[j].1));
        } else {
            assert(record_matches(recs[ps.len() as int], t, WGS84, Plan::Identity));
            assert(ps[i].0 != WGS84);
        }
    }
}

/// Compiled tables always hold WGS 84, and every record of that code maps
/// to the identity.
pub proof fn lemma_wgs84_is_identity(recs: Seq<CrsRecord>, t: RegistryTables)
    requires
        compiled(recs, t),
    ensures
        exists|i: int| 0 <= i < recs.len() && (#[trigger] recs[i]).code == WGS84,
        forall|i: int| 0 <= i < recs.len() && (#[trigger] recs[i]).code == WGS84 ==> recs[i].projection is Identity,
{
    let ps = plans(t);
    let fe = crate::compiler::first_of_each(t.crs@);
    lemma_keep_elements(fe, crate::compiler::plan_fn(t));
    assert forall|i: int| 0 <= i < recs.len() && (#[trigger] recs[i]).code == WGS84 implies recs[i].projection is Identity by {
        if i < ps.len() {
            assert(record_matches(recs[i], t, ps[i].0, ps[i].1));
            let j = choose|j: int| 0 <= j < fe.len() && (crate::compiler::plan_fn(t))(fe[j]) == Some(#[trigger] ps[i]);
            assert(fe[j].0 == WGS84);
        } else {
            assert(record_matches(recs[ps.len() as int], t, WGS84, Plan::Identity));
        }
    }
    if has_code(ps, WGS84) {
        let i = choose|i: int| 0 <= i < ps.len() && ps[i].0 == WGS84;
        assert(record_matches(recs[i], t, ps[i].0, ps[i].1));
    } else {
        assert(record_matches(recs[ps.len() as int], t, WGS84, Plan::Identity));
    }
}

/// Resolves every coordinate reference system of a snapshot to what the
/// runtime needs: its name, its areas of use, and for a projected system the
/// projection method, the ellipsoid code and the parameter values.
/// `ellipsoids` are the ellipsoids that a datum may use.
pub fn gen_parameter_constructors(db: &MemoryDb, ellipsoids: &Vec<EllipsoidRecipe>) -> (r: Result<Vec<CrsRecord>, CompileError>)
    requires
        db.wf(),
    ensures
        match compile_err(*db, ellipsoids@) {
            Some(e) => r == Err::<Vec<CrsRecord>, CompileError>(e),
            None => r matches Ok(recs) && exists|t: RegistryTables| #[trigger] decoded(*db, ellipsoids@, t) && compiled(recs@, t),
        },
        r matches Ok(recs) ==> distinct_codes(recs@),
{
    let usel: [&str; 3] = ["uom_code", "factor_b", "factor_c"];
    assert(str_views(usel@) =~= unit_columns());
    let units = read_units(&read_listed(db, "epsg_unitofmeasure", &usel, Ghost(unit_columns()))?);

    let csel: [&str; 5] = ["coord_ref_sys_code", "base_crs_code", "projection_conv_code", "datum_code", "coord_ref_sys_kind"];
    assert(str_views(csel@) =~= crs_columns());
    let crs = read_crs(&read_listed(db, "epsg_coordinatereferencesystem", &csel, Ghost(crs_columns()))?);
    if crs.len() == 0 {
        return Err(CompileError::EmptyTable);
    }

    let nsel: [&str; 2] = ["coord_ref_sys_code", "coord_ref_sys_name"];
    assert(str_views(nsel@) =~= name_columns());
    let names = read_names(&read_listed(db, "epsg_coordinatereferencesystem", &nsel, Ghost(name_columns()))?);

    let esel: [&str; 6] = ["extent_code", "extent_name", "bbox_south_bound_lat", "bbox_west_bound_lon", "bbox_north_bound_lat", "bbox_east_bound_lon"];
    assert(str_views(esel@) =~= extent_columns());
    let extents = read_extents(&read_listed(db, "epsg_extent", &esel, Ghost(extent_columns()))?);

    let gsel: [&str; 2] = ["object_code", "extent_code"];
    assert(str_views(gsel@) =~= usage_columns());
    let usages = read_usages(&read_listed(db, "epsg_usage", &gsel, Ghost(usage_columns()))?, &extents);

    let osel: [&str; 2] = ["coord_op_code", "coord_op_method_code"];
    assert(str_views(osel@) =~= op_columns());
    let ops = read_ops(&read_listed(db, "epsg_coordoperation", &osel, Ghost(op_columns()))?)?;

    let psel: [&str; 4] = ["coord_op_code", "parameter_code", "parameter_value", "uom_code"];
    assert(str_views(psel@) =~= param_columns());
    let params = read_params(&read_listed(db, "epsg_coordoperationparamvalue", &psel, Ghost(param_columns()))?, &units)?;
    if ops.len() == 0 {
        return Err(CompileError::EmptyTable);
    }

    let mut codes: Vec<u32> = Vec::new();
    let mut i: usize = 0;
    while i < ellipsoids.len()
        invariant
            i <= ellipsoids@.len(),
            codes@ == ellipsoid_codes(ellipsoids@.subrange(0, i as int)),
        decreases ellipsoids@.len() - i,
    {
        codes.push(ellipsoids[i].code);
        i = i + 1;
        assert(codes@ =~= ellipsoid_codes(ellipsoids@.subrange(0, i as int)));
    }
    assert(ellipsoids@.subrange(0, i as int) == ellipsoids@);

    let dsel: [&str; 3] = ["datum_code", "ellipsoid_code", "prime_meridian_code"];
    assert(str_views(dsel@) =~= datum_columns());
    let datums = read_datums(&read_listed(db, "epsg_datum", &dsel, Ghost(datum_columns()))?, &codes)?;

    let msel: [&str; 2] = ["datum_ensemble_code", "datum_code"];
    assert(str_views(msel@) =~= member_columns());
    let members = read_members(&read_listed(db, "epsg_datumensemblemember", &msel, Ghost(member_columns()))?)?;

    let t = RegistryTables { crs, names, usages, ops, params, datums, members };
    assert(decoded(*db, ellipsoids@, t));
    let mut recs = compile(&t);
    let ghost ps = plans(t);
    let mut j: usize = 0;
    let mut found = false;
    while j < recs.len()
        invariant
            recs@.len() == ps.len(),
            forall|q: int| 0 <= q < recs@.len() ==> record_matches(#[trigger] recs@[q], t, ps[q].0, ps[q].1),
            j <= recs@.len(),
            found ==> has_code(ps, WGS84),
            !found ==> forall|q: int| 0 <= q < j ==> ps[q].0 != WGS84,
        decreases recs@.len() - j,
    {
        if recs[j].code == WGS84 {
            assert(record_matches(recs@[j as int], t, ps[j as int].0, ps[j as int].1));
            found = true;
        }
        j = j + 1;
    }
    if !found {
        let rec = CrsRecord {
            code: WGS84,
            name: name_of_code(&t.names, WGS84),
            projection: ProjectionRecipe::Identity,
            areas: areas_of(&t.usages, WGS84),
        };
        recs.push(rec);
    }
    assert(compiled(recs@, t));
    proof { lemma_compiled_distinct(recs@, t); }
    Ok(recs)
}

} // verus!
