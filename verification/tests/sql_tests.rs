use csvschema::infer::{ColumnSchema, ColumnType};
use csvschema::sql::render_create_table;

fn col(name: &str, ty: ColumnType, nullable: bool) -> ColumnSchema {
    ColumnSchema {
        name: name.to_string(),
        ty,
        nullable,
    }
}

#[test]
fn renders_not_null_for_non_nullable_columns() {
    let sql = render_create_table("users", &[col("id", ColumnType::Integer, false)]);
    assert!(sql.contains("id INTEGER NOT NULL"));
}

#[test]
fn omits_not_null_for_nullable_columns() {
    let sql = render_create_table("users", &[col("middle_name", ColumnType::Text, true)]);
    assert!(sql.contains("middle_name TEXT"));
    assert!(!sql.contains("middle_name TEXT NOT NULL"));
}

#[test]
fn joins_multiple_columns_with_trailing_commas_except_the_last() {
    let sql = render_create_table(
        "t",
        &[
            col("id", ColumnType::Integer, false),
            col("name", ColumnType::Text, true),
        ],
    );
    assert_eq!(
        sql,
        "CREATE TABLE t (\n    id INTEGER NOT NULL,\n    name TEXT\n);"
    );
}

#[test]
fn quotes_an_identifier_with_a_space() {
    let sql = render_create_table("t", &[col("first name", ColumnType::Text, true)]);
    assert!(sql.contains("\"first name\" TEXT"));
}

#[test]
fn quotes_an_identifier_starting_with_a_digit() {
    let sql = render_create_table("t", &[col("2fa_enabled", ColumnType::Boolean, false)]);
    assert!(sql.contains("\"2fa_enabled\" BOOLEAN"));
}

#[test]
fn plain_identifiers_are_left_unquoted() {
    let sql = render_create_table("t", &[col("email", ColumnType::Text, false)]);
    assert!(sql.contains("    email TEXT NOT NULL"));
    assert!(!sql.contains("\"email\""));
}
