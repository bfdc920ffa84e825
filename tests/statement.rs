use oxidb::{prepare_statement, BabylonStorage, ColumnValue, StatementType, StorageError};

fn text(s: &str) -> ColumnValue {
    ColumnValue::StringLiteral(s.to_string())
}

#[test]
fn prepare_splits_words_into_values() {
    let stmt = prepare_statement(StatementType::Insert, "1 foo bar").unwrap();
    assert_eq!(stmt.stmt_type, StatementType::Insert);
    assert_eq!(
        stmt.new_rows,
        vec![vec![ColumnValue::UnsignedInteger(1), text("foo"), text("bar")]]
    );
}

#[test]
fn prepare_keeps_non_numbers_as_text() {
    let stmt = prepare_statement(StatementType::Insert, "+7 -3 18446744073709551616 007").unwrap();
    assert_eq!(
        stmt.new_rows,
        vec![vec![
            ColumnValue::UnsignedInteger(7),
            text("-3"),
            text("18446744073709551616"),
            ColumnValue::UnsignedInteger(7),
        ]]
    );
}

#[test]
fn prepare_keeps_empty_words() {
    let stmt = prepare_statement(StatementType::Select, "a  b").unwrap();
    assert_eq!(stmt.new_rows, vec![vec![text("a"), text(""), text("b")]]);
}

#[test]
fn apply_inserts_rows() {
    let mut storage = BabylonStorage::build().unwrap();
    let stmt = prepare_statement(StatementType::Insert, "1 foo bar").unwrap();
    assert_eq!(stmt.apply(&mut storage), Ok(()));
    assert_eq!(storage.iter(), stmt.new_rows);
}

#[test]
fn apply_select_writes_nothing() {
    let mut storage = BabylonStorage::build().unwrap();
    let stmt = prepare_statement(StatementType::Select, "1 foo bar").unwrap();
    assert_eq!(stmt.apply(&mut storage), Ok(()));
    assert!(storage.iter().is_empty());
}

#[test]
fn apply_reports_insert_error() {
    let mut storage = BabylonStorage::build().unwrap();
    let stmt = prepare_statement(StatementType::Insert, "1 foo").unwrap();
    assert_eq!(stmt.apply(&mut storage), Err(StorageError::ArityMismatch));
    assert!(storage.iter().is_empty());
}
