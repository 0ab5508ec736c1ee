use miniproj::{
    parse_integer, parse_negated_integer, string_to_const_name, ColumnKind, ColumnSpec, Decimal, Field, MemoryDb, ReadError, SqlType,
    SqlValue, Statement,
};

fn col(name: &str, data_type: SqlType, not_null: bool) -> ColumnSpec {
    ColumnSpec { name: name.to_string(), data_type, not_null }
}

fn num(n: &str) -> SqlValue {
    SqlValue::Number(n.to_string())
}

fn text(s: &str) -> SqlValue {
    SqlValue::SingleQuoted(s.to_string())
}

fn sample_db() -> MemoryDb {
    let mut db = MemoryDb::new();
    let create = Statement::CreateTable {
        name: "epsg_unitofmeasure".to_string(),
        columns: vec![
            col("uom_code", SqlType::Integer, true),
            col("unit_name", SqlType::Varchar, true),
            col("factor_b", SqlType::Double, false),
            col("factor_c", SqlType::Double, false),
            col("target_uom_code", SqlType::SmallInt, false),
        ],
    };
    assert_eq!(db.apply(&create), Ok(()));
    let insert = Statement::Insert {
        table: "epsg_unitofmeasure".to_string(),
        column_list: vec![],
        rows: vec![
            vec![num("9001"), text("metre"), num("1"), num("1"), num("9001")],
            vec![num("9101"), text("radian"), num("1"), num("1"), SqlValue::Null],
            vec![num("9110"), text("sexagesimal DMS"), SqlValue::Null, SqlValue::Null, num("9102")],
        ],
    };
    assert_eq!(db.apply(&insert), Ok(()));
    db
}

#[test]
fn create_mem_db() {
    let memdb = MemoryDb::new();
    println!("{memdb:#?}");
    assert!(memdb.get_table("epsg_ellipsoid").is_none());
}

#[test]
fn const_name_upper_cases_and_replaces() {
    assert_eq!(string_to_const_name("WGS 84 / UTM zone 32N"), "WGS_84___UTM_ZONE_32N");
    assert_eq!(string_to_const_name(""), "");
    assert_eq!(string_to_const_name("Réseau-9"), "R_SEAU_9");
}

#[test]
fn integer_literals() {
    assert_eq!(parse_integer("4326"), Some(4326));
    assert_eq!(parse_integer("0"), Some(0));
    assert_eq!(parse_integer("9223372036854775807"), Some(i64::MAX));
    assert_eq!(parse_integer("9223372036854775808"), None);
    assert_eq!(parse_integer(""), None);
    assert_eq!(parse_integer("1.5"), None);
    assert_eq!(parse_integer("-3"), None);
}

#[test]
fn positional_insert_and_get_rows() {
    let db = sample_db();
    let t = db.get_table("epsg_unitofmeasure").unwrap();
    assert_eq!(t.rows(), Some(3));
    let rows = t.get_rows(&["uom_code", "unit_name", "factor_b"]).unwrap();
    assert_eq!(rows.len(), 3);
    assert_eq!(rows[0][0], Some(Field::IntLike(9001)));
    assert_eq!(rows[0][1], Some(Field::StringLike("metre".to_string())));
    assert_eq!(
        rows[0][2],
        Some(Field::Double(Decimal { negative: false, digits: "1".to_string() }))
    );
    assert_eq!(rows[2][2], None);
    assert!(t.get_rows(&["uom_code", "no_such_column"]).is_err());
}

#[test]
fn rows_where_integer_matches() {
    let db = sample_db();
    let t = db.get_table("epsg_unitofmeasure").unwrap();
    let rows = t.get_rows_where_i64("target_uom_code", 9001, &["unit_name"]);
    assert_eq!(rows, vec![vec![Some(Field::StringLike("metre".to_string()))]]);
    let none = t.get_rows_where_i64("target_uom_code", 1, &["unit_name"]);
    assert!(none.is_empty());
    // A text column cannot be filtered on.
    assert!(t.get_rows_where_i64("unit_name", 1, &["uom_code"]).is_empty());
    // A missing selected column gives nothing.
    assert!(t.get_rows_where_i64("uom_code", 9001, &["missing"]).is_empty());
}

#[test]
fn row_where_stops_at_missing_column() {
    let db = sample_db();
    let t = db.get_table("epsg_unitofmeasure").unwrap();
    let row = t.get_row_where_i64("uom_code", 9101, &["unit_name", "missing", "uom_code"]).unwrap();
    assert_eq!(row, vec![Some(Field::StringLike("radian".to_string())), None, None]);
    assert!(t.get_row_where_i64("uom_code", 1234, &["unit_name"]).is_none());
}

#[test]
fn named_insert_fills_nulls_and_negates() {
    let mut db = sample_db();
    let insert = Statement::Insert {
        table: "epsg_unitofmeasure".to_string(),
        column_list: vec!["unit_name".to_string(), "uom_code".to_string(), "factor_b".to_string()],
        rows: vec![vec![text("odd"), num("77"), SqlValue::Negative("2.5".to_string())]],
    };
    assert_eq!(db.apply(&insert), Ok(()));
    let t = db.get_table("epsg_unitofmeasure").unwrap();
    let row = t.get_row_where_i64("uom_code", 77, &["factor_b", "factor_c", "target_uom_code"]).unwrap();
    assert_eq!(
        row,
        vec![Some(Field::Double(Decimal { negative: true, digits: "2.5".to_string() })), None, None]
    );
}

#[test]
fn rejected_statements_leave_the_store() {
    let mut db = sample_db();
    let wrong_width = Statement::Insert {
        table: "epsg_unitofmeasure".to_string(),
        column_list: vec![],
        rows: vec![vec![num("1")]],
    };
    assert_eq!(db.apply(&wrong_width), Err(ReadError::MalformedRow));
    let null_in_not_null = Statement::Insert {
        table: "epsg_unitofmeasure".to_string(),
        column_list: vec!["unit_name".to_string()],
        rows: vec![vec![text("x")]],
    };
    assert_eq!(db.apply(&null_in_not_null), Err(ReadError::MalformedRow));
    let too_negative = Statement::Insert {
        table: "epsg_unitofmeasure".to_string(),
        column_list: vec![],
        rows: vec![vec![SqlValue::Negative("9223372036854775809".to_string()), text("a"), num("1"), num("1"), num("1")]],
    };
    assert_eq!(db.apply(&too_negative), Err(ReadError::MalformedRow));
    let unknown = Statement::Insert { table: "nope".to_string(), column_list: vec![], rows: vec![] };
    assert_eq!(db.apply(&unknown), Err(ReadError::UnknownTable));
    assert_eq!(db.get_table("epsg_unitofmeasure").unwrap().rows(), Some(3));
    let bad_type = Statement::CreateTable {
        name: "t".to_string(),
        columns: vec![col("c", SqlType::Other, false)],
    };
    assert_eq!(db.apply(&bad_type), Err(ReadError::UnsupportedType));
    assert!(db.get_table("t").is_none());
}

#[test]
fn drop_and_recreate() {
    let mut db = sample_db();
    assert_eq!(db.apply(&Statement::StartTransaction), Ok(()));
    assert_eq!(db.apply(&Statement::Other), Ok(()));
    let drop = Statement::DropTables { names: vec!["epsg_unitofmeasure".to_string(), "absent".to_string()] };
    assert_eq!(db.apply(&drop), Ok(()));
    assert!(db.get_table("epsg_unitofmeasure").is_none());
    let create = Statement::CreateTable {
        name: "epsg_unitofmeasure".to_string(),
        columns: vec![col("uom_code", SqlType::Custom, false)],
    };
    assert_eq!(db.apply(&create), Ok(()));
    assert_eq!(db.apply(&Statement::Commit), Ok(()));
    let t = db.get_table("epsg_unitofmeasure").unwrap();
    assert_eq!(t.rows(), Some(0));
    assert_eq!(t.column_order, vec!["uom_code".to_string()]);
}

#[test]
fn table_without_columns() {
    let mut db = MemoryDb::new();
    let create = Statement::CreateTable { name: "empty".to_string(), columns: vec![] };
    assert_eq!(db.apply(&create), Ok(()));
    let t = db.get_table("empty").unwrap();
    assert_eq!(t.rows(), None);
    assert_eq!(t.get_rows(&[]), Ok(vec![]));
}

#[test]
fn reading_tables_by_name() {
    let db = sample_db();
    assert_eq!(
        miniproj::read_table(&db, "absent", &["uom_code"]),
        Err(miniproj::CompileError::MissingTable)
    );
    assert_eq!(
        miniproj::read_table(&db, "epsg_unitofmeasure", &["uom_code", "absent"]),
        Err(miniproj::CompileError::MissingColumn)
    );
    let rows = miniproj::read_table(&db, "epsg_unitofmeasure", &["unit_name"]).unwrap();
    assert_eq!(rows.len(), 3);
    assert_eq!(rows[2], vec![Some(Field::StringLike("sexagesimal DMS".to_string()))]);
}

#[test]
fn first_named_value_wins() {
    let mut db = sample_db();
    let insert = Statement::Insert {
        table: "epsg_unitofmeasure".to_string(),
        column_list: vec!["uom_code".to_string(), "unit_name".to_string(), "uom_code".to_string()],
        rows: vec![vec![num("5"), text("twice"), num("6")]],
    };
    assert_eq!(db.apply(&insert), Ok(()));
    let t = db.get_table("epsg_unitofmeasure").unwrap();
    assert!(t.get_row_where_i64("uom_code", 5, &["unit_name"]).is_some());
    assert!(t.get_row_where_i64("uom_code", 6, &["unit_name"]).is_none());
}

#[test]
fn negative_integers_are_stored_negated() {
    assert_eq!(parse_negated_integer("1"), Some(-1));
    assert_eq!(parse_negated_integer("9223372036854775808"), Some(i64::MIN));
    assert_eq!(parse_negated_integer("9223372036854775809"), None);
    assert_eq!(parse_negated_integer("1.5"), None);
    let mut db = sample_db();
    let insert = Statement::Insert {
        table: "epsg_unitofmeasure".to_string(),
        column_list: vec![],
        rows: vec![
            vec![SqlValue::Negative("1".to_string()), text("a"), num("1"), num("1"), SqlValue::Negative("9223372036854775808".to_string())],
        ],
    };
    assert_eq!(db.apply(&insert), Ok(()));
    let t = db.get_table("epsg_unitofmeasure").unwrap();
    let row = t.get_row_where_i64("uom_code", -1, &["unit_name", "target_uom_code"]).unwrap();
    assert_eq!(row, vec![Some(Field::StringLike("a".to_string())), Some(Field::IntLike(i64::MIN))]);
}

#[test]
fn custom_not_null_is_an_integer_column() {
    let mut db = MemoryDb::new();
    let create = Statement::CreateTable {
        name: "t".to_string(),
        columns: vec![col("c", SqlType::Custom, true)],
    };
    assert_eq!(db.apply(&create), Ok(()));
    let t = db.get_table("t").unwrap();
    assert_eq!(t.columns[0].kind_of(), ColumnKind::Int);
    let null = Statement::Insert { table: "t".to_string(), column_list: vec![], rows: vec![vec![SqlValue::Null]] };
    assert_eq!(db.apply(&null), Err(ReadError::MalformedRow));
}

fn dump(with_failure: bool) -> Vec<Statement> {
    let mut stmts = vec![
        Statement::StartTransaction,
        Statement::CreateTable { name: "t".to_string(), columns: vec![col("c", SqlType::Integer, true)] },
        Statement::Insert { table: "t".to_string(), column_list: vec![], rows: vec![vec![num("1")]] },
    ];
    if with_failure {
        stmts.push(Statement::Insert { table: "u".to_string(), column_list: vec![], rows: vec![] });
    }
    stmts.push(Statement::Insert { table: "t".to_string(), column_list: vec![], rows: vec![vec![num("2")]] });
    stmts.push(Statement::Commit);
    stmts
}

#[test]
fn applying_a_dump_stops_at_the_first_failure() {
    let mut db = MemoryDb::new();
    assert_eq!(db.apply_all(&dump(true)), Err((3, ReadError::UnknownTable)));
    assert_eq!(db.get_table("t").unwrap().rows(), Some(1));
    let mut whole = MemoryDb::new();
    assert_eq!(whole.apply_all(&dump(false)), Ok(()));
    assert_eq!(whole.get_table("t").unwrap().rows(), Some(2));
}
