use rust_dbms::engine::{Catalog, Column, DataType, EngineError, QueryEngine, Row};

fn col(name: &str, data_type: DataType) -> Column {
    Column { name: name.to_string(), data_type }
}

fn strs(values: &[&str]) -> Vec<String> {
    values.iter().map(|v| v.to_string()).collect()
}

fn values(rows: &[Row]) -> Vec<Vec<String>> {
    rows.iter().map(|r| r.values.clone()).collect()
}

#[test]
fn users_scenario_end_to_end() {
    let mut engine = QueryEngine::new();
    engine
        .execute_create_table(
            "users".to_string(),
            vec![col("id", DataType::Integer), col("name", DataType::Text)],
        )
        .unwrap();
    engine.execute_insert("users".to_string(), strs(&["1", "Alice"])).unwrap();
    engine.execute_insert("users".to_string(), strs(&["2", "Bob"])).unwrap();
    let rows = engine.execute_select("users".to_string()).unwrap();
    assert_eq!(values(&rows), vec![strs(&["1", "Alice"]), strs(&["2", "Bob"])]);
    match engine.execute_select("ghosts".to_string()) {
        Err(EngineError::UnknownTable(name)) => assert_eq!(name, "ghosts"),
        other => panic!("expected UnknownTable, got {:?}", other),
    }
}

#[test]
fn create_twice_is_duplicate_and_keeps_rows() {
    let mut engine = QueryEngine::new();
    engine.execute_create_table("t".to_string(), vec![col("a", DataType::Text)]).unwrap();
    engine.execute_insert("t".to_string(), strs(&["x"])).unwrap();
    match engine.execute_create_table("t".to_string(), vec![col("b", DataType::Integer)]) {
        Err(EngineError::DuplicateTable(name)) => assert_eq!(name, "t"),
        other => panic!("expected DuplicateTable, got {:?}", other),
    }
    let rows = engine.execute_select("t".to_string()).unwrap();
    assert_eq!(values(&rows), vec![strs(&["x"])]);
    let schema = engine.get_table_schema("t").unwrap();
    assert_eq!(schema.columns.len(), 1);
    assert_eq!(schema.columns[0].name, "a");
}

#[test]
fn insert_with_wrong_arity_is_rejected() {
    let mut engine = QueryEngine::new();
    engine
        .execute_create_table(
            "t".to_string(),
            vec![col("id", DataType::Integer), col("name", DataType::Text)],
        )
        .unwrap();
    engine.execute_insert("t".to_string(), strs(&["1", "a"])).unwrap();
    match engine.execute_insert("t".to_string(), strs(&["2"])) {
        Err(EngineError::ArityMismatch { expected, found }) => {
            assert_eq!(expected, 2);
            assert_eq!(found, 1);
        }
        other => panic!("expected ArityMismatch, got {:?}", other),
    }
    match engine.execute_insert("t".to_string(), strs(&["2", "b", "c"])) {
        Err(EngineError::ArityMismatch { expected, found }) => {
            assert_eq!(expected, 2);
            assert_eq!(found, 3);
        }
        other => panic!("expected ArityMismatch, got {:?}", other),
    }
    assert_eq!(engine.execute_select("t".to_string()).unwrap().len(), 1);
}

#[test]
fn insert_into_unknown_table_is_rejected() {
    let mut engine = QueryEngine::new();
    match engine.execute_insert("missing".to_string(), strs(&["1"])) {
        Err(EngineError::UnknownTable(name)) => assert_eq!(name, "missing"),
        other => panic!("expected UnknownTable, got {:?}", other),
    }
    assert!(engine.get_table_schema("missing").is_none());
}

#[test]
fn empty_table_selects_no_rows() {
    let mut engine = QueryEngine::new();
    engine.execute_create_table("e".to_string(), vec![]).unwrap();
    assert!(engine.execute_select("e".to_string()).unwrap().is_empty());
    engine.execute_insert("e".to_string(), vec![]).unwrap();
    let rows = engine.execute_select("e".to_string()).unwrap();
    assert_eq!(rows.len(), 1);
    assert!(rows[0].values.is_empty());
}

#[test]
fn catalog_lists_tables_in_creation_order() {
    let mut catalog = Catalog::new();
    assert!(catalog.list_tables().is_empty());
    catalog.create_table("b".to_string(), vec![col("x", DataType::Text)]).unwrap();
    catalog.create_table("a".to_string(), vec![]).unwrap();
    assert_eq!(catalog.list_tables(), vec!["b", "a"]);
    assert!(catalog.create_table("a".to_string(), vec![]).is_err());
    assert_eq!(catalog.list_tables(), vec!["b", "a"]);
    assert_eq!(catalog.find_table("b").unwrap().columns[0].data_type, DataType::Text);
    assert!(catalog.find_table("c").is_none());
}

#[test]
fn catalog_table_changes_in_place() {
    let mut catalog = Catalog::new();
    catalog.create_table("t".to_string(), vec![col("v", DataType::Text)]).unwrap();
    let table = catalog.find_table_mut("t").unwrap();
    table.rows.push(Row { values: strs(&["z"]) });
    assert_eq!(values(&catalog.find_table("t").unwrap().rows), vec![strs(&["z"])]);
    assert!(catalog.find_table_mut("u").is_none());
}
