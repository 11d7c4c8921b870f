use rust_dbms::command::{Command, Outcome};
use rust_dbms::engine::{Column, DataType, EngineError, QueryEngine};
use rust_dbms::wal::WalRecord;

#[test]
fn commands_dispatch_to_the_engine() {
    let mut engine = QueryEngine::new();
    let create = Command::CreateTable {
        name: "users".to_string(),
        columns: vec![
            Column { name: "id".to_string(), data_type: DataType::Integer },
            Column { name: "name".to_string(), data_type: DataType::Text },
        ],
    };
    assert!(matches!(engine.execute(create), Outcome::Created));
    let insert = Command::Insert {
        table: "users".to_string(),
        values: vec!["1".to_string(), "Alice".to_string()],
    };
    assert!(matches!(engine.execute(insert), Outcome::Inserted));
    match engine.execute(Command::Select { table: "users".to_string() }) {
        Outcome::Rows(rows) => {
            assert_eq!(rows.len(), 1);
            assert_eq!(rows[0].values, vec!["1".to_string(), "Alice".to_string()]);
        }
        _ => panic!("expected rows"),
    }
    match engine.execute(Command::Insert { table: "users".to_string(), values: vec![] }) {
        Outcome::Failed(EngineError::ArityMismatch { expected: 2, found: 0 }) => {}
        _ => panic!("expected ArityMismatch"),
    }
}

#[test]
fn unknown_command_is_not_executed() {
    let mut engine = QueryEngine::new();
    match engine.execute(Command::Unknown("DROP TABLE t".to_string())) {
        Outcome::Unrecognized(text) => assert_eq!(text, "DROP TABLE t"),
        _ => panic!("expected Unrecognized"),
    }
    assert!(engine.get_table_schema("t").is_none());
    match engine.execute(Command::Select { table: "t".to_string() }) {
        Outcome::Failed(EngineError::UnknownTable(name)) => assert_eq!(name, "t"),
        _ => panic!("expected UnknownTable"),
    }
}

#[test]
fn record_validity() {
    assert!(WalRecord { page_id: 0, offset: 4095, length: 1, data: vec![1] }.is_valid());
    assert!(!WalRecord { page_id: 0, offset: 4095, length: 2, data: vec![1, 2] }.is_valid());
    assert!(!WalRecord { page_id: 0, offset: 0, length: 2, data: vec![1] }.is_valid());
    assert!(!WalRecord { page_id: 0, offset: u64::MAX, length: 0, data: vec![] }.is_valid());
}
