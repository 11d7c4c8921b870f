use rust_dbms::command::{Command, Outcome};
use rust_dbms::engine::{DataType, EngineError, QueryEngine};
use rust_dbms::lexer::tokenize;
use rust_dbms::parser::parse_command;

#[test]
fn tokens_split_on_space_and_punctuation() {
    assert_eq!(
        tokenize("INSERT INTO t VALUES (1,Alice)"),
        vec!["INSERT", "INTO", "t", "VALUES", "(", "1", ",", "Alice", ")"]
    );
    assert_eq!(tokenize("  a\tb\n"), vec!["a", "b"]);
    assert!(tokenize("").is_empty());
    assert!(tokenize("   ").is_empty());
    assert_eq!(tokenize("(()"), vec!["(", "(", ")"]);
}

#[test]
fn parses_select() {
    match parse_command("SELECT * FROM users") {
        Command::Select { table } => assert_eq!(table, "users"),
        _ => panic!("expected Select"),
    }
}

#[test]
fn parses_insert() {
    match parse_command("INSERT INTO users VALUES (1, Alice)") {
        Command::Insert { table, values } => {
            assert_eq!(table, "users");
            assert_eq!(values, vec!["1".to_string(), "Alice".to_string()]);
        }
        _ => panic!("expected Insert"),
    }
    match parse_command("INSERT INTO e VALUES ()") {
        Command::Insert { table, values } => {
            assert_eq!(table, "e");
            assert!(values.is_empty());
        }
        _ => panic!("expected Insert"),
    }
}

#[test]
fn parses_create_table() {
    match parse_command("CREATE TABLE users (id INTEGER, name TEXT)") {
        Command::CreateTable { name, columns } => {
            assert_eq!(name, "users");
            assert_eq!(columns.len(), 2);
            assert_eq!(columns[0].name, "id");
            assert_eq!(columns[0].data_type, DataType::Integer);
            assert_eq!(columns[1].name, "name");
            assert_eq!(columns[1].data_type, DataType::Text);
        }
        _ => panic!("expected CreateTable"),
    }
}

#[test]
fn malformed_commands_are_unknown() {
    for text in [
        "DROP TABLE users",
        "SELECT name FROM users",
        "INSERT INTO users VALUES (1,,2)",
        "INSERT INTO users VALUES (1, 2",
        "CREATE TABLE t (id FLOAT)",
        "CREATE TABLE t (id INTEGER,)",
        "CREATE TABLE ( (a TEXT)",
    ] {
        match parse_command(text) {
            Command::Unknown(raw) => assert_eq!(raw, text),
            _ => panic!("expected Unknown for {}", text),
        }
    }
}

#[test]
fn keywords_and_types_in_any_case() {
    match parse_command("create table users(id integer, name Text)") {
        Command::CreateTable { name, columns } => {
            assert_eq!(name, "users");
            assert_eq!(columns.len(), 2);
            assert_eq!(columns[0].data_type, DataType::Integer);
            assert_eq!(columns[1].data_type, DataType::Text);
        }
        _ => panic!("expected CreateTable"),
    }
    match parse_command("select * From Users") {
        Command::Select { table } => assert_eq!(table, "Users"),
        _ => panic!("expected Select"),
    }
    match parse_command("insert into t values (A,b)") {
        Command::Insert { table, values } => {
            assert_eq!(table, "t");
            assert_eq!(values, vec!["A".to_string(), "b".to_string()]);
        }
        _ => panic!("expected Insert"),
    }
    assert!(matches!(parse_command("SELECTS * FROM t"), Command::Unknown(_)));
}

#[test]
fn users_scenario_from_command_text() {
    let mut engine = QueryEngine::new();
    assert!(matches!(
        engine.execute(parse_command("CREATE TABLE users(id integer, name text)")),
        Outcome::Created
    ));
    assert!(matches!(
        engine.execute(parse_command("INSERT INTO users VALUES (1, Alice)")),
        Outcome::Inserted
    ));
    assert!(matches!(
        engine.execute(parse_command("INSERT INTO users VALUES (2, Bob)")),
        Outcome::Inserted
    ));
    match engine.execute(parse_command("SELECT * FROM users")) {
        Outcome::Rows(rows) => {
            let values: Vec<Vec<String>> = rows.iter().map(|r| r.values.clone()).collect();
            assert_eq!(
                values,
                vec![
                    vec!["1".to_string(), "Alice".to_string()],
                    vec!["2".to_string(), "Bob".to_string()]
                ]
            );
        }
        _ => panic!("expected rows"),
    }
    match engine.execute(parse_command("SELECT * FROM ghosts")) {
        Outcome::Failed(EngineError::UnknownTable(name)) => assert_eq!(name, "ghosts"),
        _ => panic!("expected UnknownTable"),
    }
}
