use csvschema::infer::{infer_schema, ColumnSchema, ColumnType};
use csvschema::sql::{quote_identifier, render_create_table};
use csvschema::table_name::{default_table_name, table_name_from_stem};

fn rows(data: &[&[&str]]) -> Vec<Vec<String>> {
    data.iter()
        .map(|r| r.iter().map(|s| s.to_string()).collect())
        .collect()
}

fn headers(names: &[&str]) -> Vec<String> {
    names.iter().map(|s| s.to_string()).collect()
}

fn one_column(values: &[&str]) -> ColumnSchema {
    let h = headers(&["c"]);
    let r: Vec<Vec<String>> = values.iter().map(|v| vec![v.to_string()]).collect();
    infer_schema(&h, r, None).remove(0)
}

fn rank(t: ColumnType) -> u32 {
    match t {
        ColumnType::Boolean => 0,
        ColumnType::Integer => 1,
        ColumnType::BigInt => 2,
        ColumnType::Double => 3,
        ColumnType::Date => 4,
        ColumnType::Text => 5,
    }
}

#[test]
fn schema_keeps_header_names_and_order() {
    let h = headers(&["b", "a", "first name"]);
    let schema = infer_schema(&h, rows(&[&["1", "x", ""]]), None);
    assert_eq!(schema.len(), 3);
    assert_eq!(schema[0].name, "b");
    assert_eq!(schema[1].name, "a");
    assert_eq!(schema[2].name, "first name");
    assert_eq!(schema[2].ty, ColumnType::Text);
    assert!(schema[2].nullable);
}

#[test]
fn no_headers_give_an_empty_schema() {
    let schema = infer_schema(&[], rows(&[&["1", "2"]]), None);
    assert!(schema.is_empty());
}

#[test]
fn no_rows_give_nullable_false_text_columns() {
    let schema = infer_schema(&headers(&["a"]), Vec::new(), None);
    assert_eq!(schema[0].ty, ColumnType::Text);
    assert!(!schema[0].nullable);
}

#[test]
fn a_zero_sample_examines_nothing() {
    let schema = infer_schema(&headers(&["a"]), rows(&[&["1"], &[""]]), Some(0));
    assert_eq!(schema[0].ty, ColumnType::Text);
    assert!(!schema[0].nullable);
}

#[test]
fn a_sample_larger_than_the_file_examines_every_row() {
    let all = infer_schema(&headers(&["a"]), rows(&[&["1"], &["x"]]), None);
    let sampled = infer_schema(&headers(&["a"]), rows(&[&["1"], &["x"]]), Some(10));
    assert_eq!(all, sampled);
}

#[test]
fn fields_past_the_header_are_ignored() {
    let schema = infer_schema(&headers(&["a"]), rows(&[&["1", "x"], &["2", "y"]]), None);
    assert_eq!(schema.len(), 1);
    assert_eq!(schema[0].ty, ColumnType::Integer);
}

#[test]
fn each_type_has_a_witness() {
    assert_eq!(one_column(&["true", "FALSE"]).ty, ColumnType::Boolean);
    assert_eq!(one_column(&["1", "-2147483648", "2147483647"]).ty, ColumnType::Integer);
    assert_eq!(one_column(&["1", "2147483648"]).ty, ColumnType::BigInt);
    assert_eq!(one_column(&["1", "-9223372036854775808"]).ty, ColumnType::BigInt);
    assert_eq!(one_column(&["1", "99999999999999999999"]).ty, ColumnType::Double);
    assert_eq!(one_column(&["1e400", "-2.5", ".5"]).ty, ColumnType::Double);
    assert_eq!(one_column(&["inf", "NaN"]).ty, ColumnType::Text);
    assert_eq!(one_column(&["1.5", "NaN"]).ty, ColumnType::Text);
    assert_eq!(one_column(&["2023-01-15", "2023-+1-05"]).ty, ColumnType::Text);
    assert_eq!(one_column(&["2023-01-15", "1999-12-31"]).ty, ColumnType::Date);
    assert_eq!(one_column(&["2023-01-15", "1"]).ty, ColumnType::Text);
    assert_eq!(one_column(&["true", "1"]).ty, ColumnType::Text);
    assert_eq!(one_column(&["-007"]).ty, ColumnType::Text);
    assert_eq!(one_column(&["0.5", "00.5"]).ty, ColumnType::Double);
}

#[test]
fn an_empty_value_does_not_disqualify_any_type() {
    let c = one_column(&["true", "", "false"]);
    assert_eq!(c.ty, ColumnType::Boolean);
    assert!(c.nullable);
    let c = one_column(&["", "2023-01-15"]);
    assert_eq!(c.ty, ColumnType::Date);
    assert!(c.nullable);
}

#[test]
fn row_order_does_not_change_the_schema() {
    let values = ["10", "", "9.99", "10", "3.5"];
    let mut reversed = values;
    reversed.reverse();
    assert_eq!(one_column(&values), one_column(&reversed));
    assert_eq!(one_column(&values).ty, ColumnType::Double);
    assert_eq!(one_column(&["1", "1", "x"]), one_column(&["x", "1"]));
}

#[test]
fn more_rows_only_widen_a_column() {
    let base = one_column(&["1", "2"]);
    for extra in ["3", "5000000000", "2.5", "2023-01-15", "word", "true", ""] {
        let wider = one_column(&["1", "2", extra]);
        assert!(rank(wider.ty) >= rank(base.ty), "{}", extra);
        if base.nullable {
            assert!(wider.nullable);
        }
    }
    let text = one_column(&["x"]);
    assert_eq!(one_column(&["x", "1", "true"]).ty, text.ty);
}

#[test]
fn sql_names_of_every_type() {
    assert_eq!(ColumnType::Boolean.sql_name(), "BOOLEAN");
    assert_eq!(ColumnType::Integer.sql_name(), "INTEGER");
    assert_eq!(ColumnType::BigInt.sql_name(), "BIGINT");
    assert_eq!(ColumnType::Double.sql_name(), "DOUBLE PRECISION");
    assert_eq!(ColumnType::Date.sql_name(), "DATE");
    assert_eq!(ColumnType::Text.sql_name(), "TEXT");
}

#[test]
fn identifiers_are_quoted_only_when_needed() {
    assert_eq!(quote_identifier("email"), "email");
    assert_eq!(quote_identifier("_x1"), "_x1");
    assert_eq!(quote_identifier("first name"), "\"first name\"");
    assert_eq!(quote_identifier("order#"), "\"order#\"");
    assert_eq!(quote_identifier("2fa"), "\"2fa\"");
    assert_eq!(quote_identifier(""), "\"\"");
    assert_eq!(quote_identifier("naïve"), "\"naïve\"");
    assert_eq!(quote_identifier("say \"hi\""), "\"say \"\"hi\"\"\"");
}

#[test]
fn distinct_names_quote_to_distinct_identifiers() {
    let names = ["a b", "\"a b\"", "a\"b", "a\"\"b", "ab", "\"ab\"", ""];
    for (i, x) in names.iter().enumerate() {
        for (j, y) in names.iter().enumerate() {
            assert_eq!(i == j, quote_identifier(x) == quote_identifier(y), "{} {}", x, y);
        }
    }
}

#[test]
fn a_whole_statement_renders_exactly() {
    let cols = vec![
        ColumnSchema { name: "id".to_string(), ty: ColumnType::BigInt, nullable: false },
        ColumnSchema { name: "price".to_string(), ty: ColumnType::Double, nullable: true },
        ColumnSchema { name: "signed up".to_string(), ty: ColumnType::Date, nullable: false },
    ];
    assert_eq!(
        render_create_table("orders", &cols),
        "CREATE TABLE orders (\n    id BIGINT NOT NULL,\n    price DOUBLE PRECISION,\n    \"signed up\" DATE NOT NULL\n);"
    );
    assert_eq!(render_create_table("t", &[]), "CREATE TABLE t (\n\n);");
}

#[test]
fn inference_then_rendering_marks_only_columns_with_empty_values_nullable() {
    let h = headers(&["id", "notes"]);
    let schema = infer_schema(&h, rows(&[&["1", "x"], &["2", ""]]), None);
    assert_eq!(
        render_create_table("users", &schema),
        "CREATE TABLE users (\n    id INTEGER NOT NULL,\n    notes TEXT\n);"
    );
}

#[test]
fn the_default_table_name_is_the_file_stem() {
    assert_eq!(default_table_name("users.csv"), "users");
    assert_eq!(default_table_name("data/exports/orders.2024.csv"), "orders.2024");
    assert_eq!(default_table_name("people"), "people");
    assert_eq!(default_table_name(".hidden"), ".hidden");
    assert_eq!(default_table_name(""), "data");
    assert_eq!(default_table_name("dir/.."), "data");
    assert_eq!(default_table_name("archive.tar.gz"), "archive.tar");
    assert_eq!(default_table_name("/tmp/in/people.csv"), "people");
    assert_eq!(default_table_name("/"), "data");
    assert_eq!(default_table_name(".."), "data");
    assert_eq!(default_table_name("."), "data");
    assert_eq!(default_table_name("notes."), "notes");
}

#[test]
fn a_missing_stem_falls_back_to_data() {
    assert_eq!(table_name_from_stem(None), "data");
    assert_eq!(table_name_from_stem(Some("users".to_string())), "users");
}
