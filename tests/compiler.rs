use miniproj::{
    all_names, compile_registry, gen_parameter_constructors, get_ellipsoid, get_ellipsoid_code,
    get_ellipsoids, get_projection, get_reference_system_areas, get_reference_system_name,
    ColumnSpec, CompileError, Decimal, EllipsoidShape, MemoryDb, Method, ProjectionRecipe,
    SqlType, SqlValue, Statement,
};

fn col(name: &str, data_type: SqlType, not_null: bool) -> ColumnSpec {
    ColumnSpec { name: name.to_string(), data_type, not_null }
}

fn num(n: &str) -> SqlValue {
    SqlValue::Number(n.to_string())
}

fn text(s: &str) -> SqlValue {
    SqlValue::SingleQuoted(s.to_string())
}

fn dec(s: &str) -> Decimal {
    Decimal { negative: false, digits: s.to_string() }
}

fn create(db: &mut MemoryDb, name: &str, columns: Vec<ColumnSpec>) {
    let stmt = Statement::CreateTable { name: name.to_string(), columns };
    assert_eq!(db.apply(&stmt), Ok(()));
}

fn insert(db: &mut MemoryDb, name: &str, rows: Vec<Vec<SqlValue>>) {
    let stmt = Statement::Insert { table: name.to_string(), column_list: vec![], rows };
    assert_eq!(db.apply(&stmt), Ok(()));
}

/// A small snapshot: WGS 84 with UTM zone 32N, a system on a non-Greenwich
/// datum, one with an unimplemented method, and one on a datum ensemble.
fn snapshot(with_wgs84_row: bool) -> MemoryDb {
    let mut db = MemoryDb::new();
    create(&mut db, "epsg_unitofmeasure", vec![
        col("uom_code", SqlType::Integer, true),
        col("factor_b", SqlType::Double, false),
        col("factor_c", SqlType::Double, false),
    ]);
    insert(&mut db, "epsg_unitofmeasure", vec![
        vec![num("9001"), num("1"), num("1")],
        vec![num("9102"), num("3.14159265358979"), num("180")],
        vec![num("9201"), num("1"), num("1")],
    ]);
    create(&mut db, "epsg_ellipsoid", vec![
        col("ellipsoid_code", SqlType::Integer, true),
        col("semi_major_axis", SqlType::Double, true),
        col("semi_minor_axis", SqlType::Double, false),
        col("inv_flattening", SqlType::Double, false),
        col("uom_code", SqlType::Integer, false),
    ]);
    insert(&mut db, "epsg_ellipsoid", vec![
        vec![num("7030"), num("6378137"), SqlValue::Null, num("298.257223563"), num("9001")],
        vec![num("7004"), num("6377397.155"), SqlValue::Null, num("299.1528128"), num("9001")],
        vec![num("7008"), num("6378206.4"), num("6356583.8"), SqlValue::Null, num("9001")],
    ]);
    create(&mut db, "epsg_coordinatereferencesystem", vec![
        col("coord_ref_sys_code", SqlType::Integer, true),
        col("coord_ref_sys_name", SqlType::Varchar, true),
        col("coord_ref_sys_kind", SqlType::Varchar, true),
        col("datum_code", SqlType::Integer, false),
        col("base_crs_code", SqlType::Integer, false),
        col("projection_conv_code", SqlType::Integer, false),
    ]);
    let mut crs = vec![
        vec![num("32632"), text("WGS 84 / UTM zone 32N"), text("projected"), SqlValue::Null, num("4326"), num("16032")],
        vec![num("4801"), text("Bern 1898 (Bern)"), text("geographic 2D"), num("6801"), SqlValue::Null, SqlValue::Null],
        vec![num("21780"), text("Bern 1898 (Bern) / LV03C"), text("projected"), SqlValue::Null, num("4801"), num("19923")],
        vec![num("3857"), text("WGS 84 / Odd"), text("projected"), SqlValue::Null, num("4326"), num("3856")],
        vec![num("4978"), text("WGS 84 geocentric"), text("geocentric"), num("6326"), SqlValue::Null, SqlValue::Null],
        vec![num("4258"), text("ETRS89"), text("geographic 2D"), num("6258"), SqlValue::Null, SqlValue::Null],
        vec![num("3035"), text("ETRS89-extended / LAEA Europe"), text("projected"), SqlValue::Null, num("4258"), num("19986")],
    ];
    if with_wgs84_row {
        crs.push(vec![num("4326"), text("WGS 84"), text("geographic 2D"), num("6326"), SqlValue::Null, SqlValue::Null]);
    }
    insert(&mut db, "epsg_coordinatereferencesystem", crs);
    create(&mut db, "epsg_extent", vec![
        col("extent_code", SqlType::Integer, true),
        col("extent_name", SqlType::Varchar, true),
        col("bbox_south_bound_lat", SqlType::Double, false),
        col("bbox_west_bound_lon", SqlType::Double, false),
        col("bbox_north_bound_lat", SqlType::Double, false),
        col("bbox_east_bound_lon", SqlType::Double, false),
    ]);
    insert(&mut db, "epsg_extent", vec![
        vec![num("2861"), text("Between 6E and 12E"), num("0"), num("6"), num("84"), num("12")],
        vec![num("1262"), text("World"), SqlValue::Negative("90".to_string()), SqlValue::Negative("180".to_string()), num("90"), num("180")],
    ]);
    create(&mut db, "epsg_usage", vec![
        col("object_code", SqlType::Integer, true),
        col("extent_code", SqlType::Integer, true),
    ]);
    insert(&mut db, "epsg_usage", vec![
        vec![num("32632"), num("2861")],
        vec![num("4326"), num("1262")],
        vec![num("32632"), num("9999")],
    ]);
    create(&mut db, "epsg_coordoperation", vec![
        col("coord_op_code", SqlType::Integer, true),
        col("coord_op_method_code", SqlType::Integer, false),
    ]);
    insert(&mut db, "epsg_coordoperation", vec![
        vec![num("16032"), num("9807")],
        vec![num("19923"), num("9807")],
        vec![num("3856"), num("9999")],
        vec![num("19986"), num("9820")],
    ]);
    create(&mut db, "epsg_coordoperationparamvalue", vec![
        col("coord_op_code", SqlType::Integer, true),
        col("parameter_code", SqlType::Integer, true),
        col("parameter_value", SqlType::Double, false),
        col("uom_code", SqlType::Integer, false),
    ]);
    insert(&mut db, "epsg_coordoperationparamvalue", vec![
        vec![num("16032"), num("8801"), num("0"), num("9102")],
        vec![num("16032"), num("8802"), num("9"), num("9102")],
        vec![num("16032"), num("8805"), num("0.9996"), num("9201")],
        vec![num("16032"), num("8806"), num("500000"), num("9001")],
        vec![num("16032"), num("8807"), num("0"), num("9001")],
        vec![num("16032"), num("8808"), num("1"), num("9999")],
        vec![num("19923"), num("8801"), num("46.5708"), num("9110")],
        vec![num("3856"), num("8801"), num("0"), num("9102")],
        vec![num("19986"), num("8801"), num("52"), num("9102")],
        vec![num("19986"), num("8802"), num("10"), num("9102")],
        vec![num("19986"), num("8806"), num("4321000"), num("9001")],
        vec![num("19986"), num("8807"), num("3210000"), num("9001")],
    ]);
    create(&mut db, "epsg_datum", vec![
        col("datum_code", SqlType::Integer, true),
        col("ellipsoid_code", SqlType::Integer, false),
        col("prime_meridian_code", SqlType::Integer, false),
    ]);
    insert(&mut db, "epsg_datum", vec![
        vec![num("6326"), num("7030"), num("8901")],
        vec![num("6801"), num("7004"), num("8907")],
        vec![num("6258"), SqlValue::Null, SqlValue::Null],
        vec![num("1178"), num("7019"), num("8901")],
        vec![num("1179"), num("7008"), num("8901")],
    ]);
    create(&mut db, "epsg_datumensemblemember", vec![
        col("datum_ensemble_code", SqlType::Integer, true),
        col("datum_code", SqlType::Integer, true),
    ]);
    insert(&mut db, "epsg_datumensemblemember", vec![
        vec![num("6258"), num("1178")],
        vec![num("6258"), num("1179")],
    ]);
    db
}

#[test]
fn ellipsoids_with_units() {
    let db = snapshot(true);
    let ells = get_ellipsoids(&db).unwrap();
    assert_eq!(ells.len(), 3);
    assert_eq!(ells[0].code, 7030);
    assert_eq!(ells[0].semi_major, dec("6378137"));
    assert_eq!(ells[0].shape, EllipsoidShape::InverseFlattening(dec("298.257223563")));
    assert_eq!(ells[0].unit.code, 9001);
    assert_eq!(ells[2].shape, EllipsoidShape::SemiMinorAxis(dec("6356583.8")));
}

#[test]
fn malformed_ellipsoid_is_an_error() {
    let mut db = snapshot(true);
    insert(&mut db, "epsg_ellipsoid", vec![vec![num("7001"), num("6377563.396"), SqlValue::Null, SqlValue::Null, num("9001")]]);
    assert_eq!(get_ellipsoids(&db).err(), Some(CompileError::MalformedEllipsoid));
    let mut db = snapshot(true);
    insert(&mut db, "epsg_ellipsoid", vec![vec![num("7001"), num("6377563.396"), SqlValue::Null, num("299.3"), num("9036")]]);
    assert_eq!(get_ellipsoids(&db).err(), Some(CompileError::UnknownUnit));
    let mut db = snapshot(true);
    insert(&mut db, "epsg_ellipsoid", vec![vec![num("7001"), num("6377563.396"), SqlValue::Null, num("299.3"), SqlValue::Null]]);
    assert_eq!(get_ellipsoids(&db).err(), Some(CompileError::MissingCode));
    let mut db = snapshot(true);
    insert(&mut db, "epsg_ellipsoid", vec![vec![num("4294967296"), num("1"), SqlValue::Null, num("299.3"), num("9001")]]);
    assert_eq!(get_ellipsoids(&db).err(), Some(CompileError::CodeOutOfRange));
}

#[test]
fn compiles_and_skips() {
    let db = snapshot(true);
    let reg = compile_registry(&db).unwrap();
    let codes: Vec<u32> = all_names(&reg).iter().map(|(c, _)| *c).collect();
    // Bern is on a non-Greenwich meridian, 3857 here uses an unknown method,
    // 4978 is geocentric; 21780 would also lack parameters.
    assert_eq!(codes, vec![32632, 4801, 4258, 3035, 4326]);
    assert_eq!(get_reference_system_name(&reg, 32632), Some("WGS 84 / UTM zone 32N".to_string()));
    assert_eq!(get_ellipsoid_code(&reg, 32632), Some(7030));
    assert_eq!(get_ellipsoid_code(&reg, 4326), None);
    assert_eq!(get_ellipsoid_code(&reg, 21780), None);
    match get_projection(&reg, 32632) {
        Some(ProjectionRecipe::Projected { method, ellipsoid, params }) => {
            assert_eq!(*method, Method::TransverseMercator);
            assert_eq!(*ellipsoid, 7030);
            let got: Vec<(u32, u32)> = params.iter().map(|p| (p.code, p.uom)).collect();
            assert_eq!(got, vec![(8801, 9102), (8802, 9102), (8805, 9201), (8806, 9001), (8807, 9001)]);
            assert_eq!(params[4].value, dec("0"));
        }
        _ => panic!("UTM zone 32N should be projected"),
    }
    assert!(matches!(get_projection(&reg, 4326), Some(ProjectionRecipe::Identity)));
    assert!(get_projection(&reg, 99999).is_none());
    // The ensemble's first member has no known ellipsoid; the second does.
    assert_eq!(get_ellipsoid_code(&reg, 3035), Some(7008));
    let areas = get_reference_system_areas(&reg, 32632).unwrap();
    assert_eq!(areas.len(), 1);
    assert_eq!(areas[0].east, dec("12"));
    assert_eq!(areas[0].south, dec("0"));
    let world = get_reference_system_areas(&reg, 4326).unwrap();
    assert_eq!(world[0].west, Decimal { negative: true, digits: "180".to_string() });
    assert!(get_reference_system_areas(&reg, 4258).is_none());
    assert_eq!(get_ellipsoid(&reg, 7004).map(|e| e.code), Some(7004));
    assert!(get_ellipsoid(&reg, 1).is_none());
}

#[test]
fn every_listed_code_has_a_name_and_projected_ones_an_ellipsoid() {
    let reg = compile_registry(&snapshot(true)).unwrap();
    for (code, _) in all_names(&reg) {
        assert!(get_reference_system_name(&reg, code).is_some());
        match get_projection(&reg, code) {
            Some(ProjectionRecipe::Identity) => assert!(get_ellipsoid_code(&reg, code).is_none()),
            Some(ProjectionRecipe::Projected { .. }) => assert!(get_ellipsoid_code(&reg, code).is_some()),
            None => panic!("listed code {code} has no projection"),
        }
    }
}

#[test]
fn wgs84_is_always_present() {
    let reg = compile_registry(&snapshot(false)).unwrap();
    assert!(matches!(get_projection(&reg, 4326), Some(ProjectionRecipe::Identity)));
    assert_eq!(
        get_reference_system_name(&reg, 4326),
        Some("Unknown Coordinate Reference System".to_string())
    );
    // The UTM zone's base system is absent now, so it is skipped.
    assert!(get_projection(&reg, 32632).is_none());
}

#[test]
fn missing_and_empty_tables() {
    let mut db = snapshot(true);
    assert_eq!(db.apply(&Statement::DropTables { names: vec!["epsg_usage".to_string()] }), Ok(()));
    let ells = get_ellipsoids(&db).unwrap();
    assert_eq!(gen_parameter_constructors(&db, &ells).err(), Some(CompileError::MissingTable));
    let mut db = snapshot(true);
    create(&mut db, "epsg_coordoperation", vec![col("coord_op_code", SqlType::Integer, true)]);
    assert_eq!(gen_parameter_constructors(&db, &ells).err(), Some(CompileError::MissingColumn));
    let mut db = snapshot(true);
    create(&mut db, "epsg_coordinatereferencesystem", vec![
        col("coord_ref_sys_code", SqlType::Integer, true),
        col("coord_ref_sys_name", SqlType::Varchar, true),
        col("coord_ref_sys_kind", SqlType::Varchar, true),
        col("datum_code", SqlType::Integer, false),
        col("base_crs_code", SqlType::Integer, false),
        col("projection_conv_code", SqlType::Integer, false),
    ]);
    assert_eq!(gen_parameter_constructors(&db, &ells).err(), Some(CompileError::EmptyTable));
    let mut db = snapshot(true);
    insert(&mut db, "epsg_coordoperation", vec![vec![num("5000000000"), num("9807")]]);
    assert_eq!(gen_parameter_constructors(&db, &ells).err(), Some(CompileError::CodeOutOfRange));
    let mut db = snapshot(true);
    let stmt = Statement::Insert {
        table: "epsg_datumensemblemember".to_string(),
        column_list: vec!["datum_ensemble_code".to_string()],
        rows: vec![vec![num("1")]],
    };
    assert!(db.apply(&stmt).is_err());
    assert!(compile_registry(&db).is_ok());
}

#[test]
fn semi_minor_axis_wins_over_inverse_flattening() {
    let mut db = snapshot(true);
    insert(&mut db, "epsg_ellipsoid", vec![vec![num("7001"), num("6377563.396"), num("6356256.909"), num("299.3249646"), num("9001")]]);
    let ells = get_ellipsoids(&db).unwrap();
    assert_eq!(ells[3].code, 7001);
    assert_eq!(ells[3].shape, EllipsoidShape::SemiMinorAxis(dec("6356256.909")));
}

#[test]
fn repeated_system_codes_keep_the_first_row() {
    let mut db = snapshot(true);
    insert(&mut db, "epsg_coordinatereferencesystem", vec![
        vec![num("32632"), text("Second copy"), text("geographic 2D"), num("6326"), SqlValue::Null, SqlValue::Null],
        vec![num("4326"), text("WGS 84 again"), text("geographic 2D"), num("6326"), SqlValue::Null, SqlValue::Null],
    ]);
    let reg = compile_registry(&db).unwrap();
    let codes: Vec<u32> = all_names(&reg).iter().map(|(c, _)| *c).collect();
    assert_eq!(codes, vec![32632, 4801, 4258, 3035, 4326]);
    assert_eq!(get_reference_system_name(&reg, 32632), Some("WGS 84 / UTM zone 32N".to_string()));
    for (code, name) in all_names(&reg) {
        assert_eq!(get_reference_system_name(&reg, code), Some(name));
    }
}
