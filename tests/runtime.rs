use miniproj::{
    get_projection, get_transformation, projection_method, to_u32, ConcatenatedCoordOp,
    CoordOperation, IdentityProjection, MemoryDb, Method, ProjectionUserVertical,
    PseudoSerialize, Registry, ZeroTransformation, compile, RegistryTables, CrsEntry, ParamValue,
    Decimal, Plan, plan_entry, resolve_datum, has_required_params, required_parameters,
};

fn empty_registry() -> Registry {
    Registry { records: vec![], ellipsoids: vec![] }
}

#[test]
fn dyn_projection_is_send_sync() {
    fn is_send_sync<T: Send + Sync>(_: T) {}

    let reg = empty_registry();
    is_send_sync(get_projection(&reg, 4326));
}

#[test]
fn unknown_code_is_missing() {
    let reg = empty_registry();
    assert!(get_projection(&reg, 99999).is_none());
    let _ = MemoryDb::new();
}

#[test]
fn method_codes() {
    assert_eq!(projection_method(9807), Some(Method::TransverseMercator));
    assert_eq!(projection_method(9820), Some(Method::LambertAzimuthalEqualArea));
    assert_eq!(projection_method(9810), Some(Method::PolarStereographicA));
    assert_eq!(projection_method(9802), Some(Method::LambertConic2SP));
    assert_eq!(projection_method(1024), Some(Method::PopVisPseudoMercator));
    assert_eq!(projection_method(9801), Some(Method::LambertConic1SPA));
    assert_eq!(projection_method(9809), Some(Method::ObliqueStereographic));
    assert_eq!(projection_method(9822), Some(Method::AlbersEqualArea));
    assert_eq!(projection_method(9806), None);
}

#[test]
fn code_range() {
    assert_eq!(to_u32(0), Some(0));
    assert_eq!(to_u32(4294967295), Some(u32::MAX));
    assert_eq!(to_u32(4294967296), None);
    assert_eq!(to_u32(-1), None);
}

#[test]
fn operations_compose() {
    let zero = ZeroTransformation;
    assert_eq!(CoordOperation::<(i32, i32), (i32, i32)>::op(&zero, (3, 4)), (3, 4));
    let vertical = ProjectionUserVertical { projection: ZeroTransformation };
    let chained: ConcatenatedCoordOp<_, _, ((i32, i32), u8), ((i32, i32), u8), ((i32, i32), u8)> =
        ConcatenatedCoordOp::concat(vertical, ZeroTransformation);
    assert_eq!(chained.op(((1, 2), 7)), ((1, 2), 7));
}

#[test]
fn no_transformation_yet() {
    assert!(get_transformation::<u32, u32>(4326, 32632).is_none());
}

#[test]
fn constructed_text() {
    assert_eq!(IdentityProjection.to_constructed(), "IdentityProjection");
    assert_eq!(ZeroTransformation.to_constructed(), "ZeroTransformation");
}

fn param(code: u32) -> ParamValue {
    ParamValue { code, value: Decimal { negative: false, digits: "1".to_string() }, uom: 9001 }
}

#[test]
fn plans_follow_the_skipping_rules() {
    let t = RegistryTables {
        crs: vec![
            (4326, CrsEntry::Geographic2D { datum: 6326 }),
            (32632, CrsEntry::Projected { conversion: 16032, base: 4326 }),
            (1, CrsEntry::Projected { conversion: 16032, base: 32632 }),
            (2, CrsEntry::Projected { conversion: 77, base: 4326 }),
            (3, CrsEntry::Projected { conversion: 78, base: 4326 }),
            (4, CrsEntry::Projected { conversion: 79, base: 4326 }),
        ],
        names: vec![(4326, "WGS 84".to_string())],
        usages: vec![],
        ops: vec![(16032, 9807), (78, 1234), (79, 9807)],
        params: vec![
            (16032, param(8801)),
            (16032, param(8802)),
            (16032, param(8805)),
            (16032, param(8806)),
            (16032, param(8807)),
            (78, param(8801)),
            (79, param(8801)),
        ],
        datums: vec![(6326, 7030)],
        members: vec![],
    };
    assert!(matches!(plan_entry(&t, t.crs[0]), Some(Plan::Identity)));
    assert!(matches!(
        plan_entry(&t, t.crs[1]),
        Some(Plan::Projected { method: Method::TransverseMercator, ellipsoid: 7030, conversion: 16032 })
    ));
    // Base is projected, conversion without parameters, method unknown.
    assert!(plan_entry(&t, t.crs[2]).is_none());
    assert!(plan_entry(&t, t.crs[3]).is_none());
    assert!(plan_entry(&t, t.crs[4]).is_none());
    // Transverse Mercator with only one of its five parameters.
    assert!(plan_entry(&t, t.crs[5]).is_none());
    let recs = compile(&t);
    assert_eq!(recs.len(), 2);
    assert_eq!(recs[0].name, "WGS 84");
    assert_eq!(recs[1].name, "Unknown Coordinate Reference System");
}

#[test]
fn ensembles_resolve_to_first_member() {
    let datums = vec![(10, 7001), (11, 7002)];
    let members = vec![(5, 9), (5, 11), (5, 10)];
    assert_eq!(resolve_datum(&datums, &members, 10), Some(7001));
    assert_eq!(resolve_datum(&datums, &members, 5), Some(7002));
    assert_eq!(resolve_datum(&datums, &members, 6), None);
}

#[test]
fn required_parameter_codes() {
    assert_eq!(required_parameters(Method::TransverseMercator), vec![8802, 8801, 8805, 8806, 8807]);
    assert_eq!(required_parameters(Method::LambertConic2SP), vec![8822, 8821, 8823, 8824, 8826, 8827]);
    assert_eq!(required_parameters(Method::PopVisPseudoMercator), vec![8802, 8801, 8806, 8807]);
    let ps: Vec<ParamValue> = vec![param(8802), param(8801), param(8806), param(8807)];
    assert!(has_required_params(&ps, Method::LambertAzimuthalEqualArea));
    assert!(!has_required_params(&ps, Method::TransverseMercator));
}

#[test]
fn wgs84_plans_to_identity_whatever_its_kind() {
    let t = RegistryTables {
        crs: vec![(4326, CrsEntry::Projected { conversion: 1, base: 2 })],
        names: vec![],
        usages: vec![],
        ops: vec![],
        params: vec![],
        datums: vec![],
        members: vec![],
    };
    assert!(matches!(plan_entry(&t, t.crs[0]), Some(Plan::Identity)));
    assert_eq!(compile(&t).len(), 1);
}
