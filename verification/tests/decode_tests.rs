use csvschema::decode::{infer_schema_of_csv, CsvDecodeError};
use csvschema::infer::ColumnType;
use csvschema::sql::render_create_table;

#[test]
fn a_csv_file_decodes_into_a_schema() {
    let bytes = b"id,name,active,signup_date,notes\n1,Alice,true,2023-01-15,hi\n2,Bob,false,2023-02-20,\n";
    let schema = infer_schema_of_csv(bytes, None).unwrap();
    assert_eq!(schema.len(), 5);
    assert_eq!(schema[0].name, "id");
    assert_eq!(schema[0].ty, ColumnType::Integer);
    assert_eq!(schema[1].ty, ColumnType::Text);
    assert_eq!(schema[2].ty, ColumnType::Boolean);
    assert_eq!(schema[3].ty, ColumnType::Date);
    assert_eq!(schema[4].ty, ColumnType::Text);
    assert!(schema[4].nullable);
    assert!(!schema[0].nullable);
    assert_eq!(
        render_create_table("users", &schema),
        "CREATE TABLE users (\n    id INTEGER NOT NULL,\n    name TEXT NOT NULL,\n    active BOOLEAN NOT NULL,\n    signup_date DATE NOT NULL,\n    notes TEXT\n);"
    );
}

#[test]
fn quoted_fields_are_decoded() {
    let bytes = b"\"first name\",price\n\"O'Brien, Bob\",9.99\n\"Lee\",10\n";
    let schema = infer_schema_of_csv(bytes, None).unwrap();
    assert_eq!(schema[0].name, "first name");
    assert_eq!(schema[0].ty, ColumnType::Text);
    assert_eq!(schema[1].ty, ColumnType::Double);
}

#[test]
fn the_sample_limit_applies_to_decoded_records() {
    let bytes = b"n\n1\n2\nx\n";
    assert_eq!(infer_schema_of_csv(bytes, Some(2)).unwrap()[0].ty, ColumnType::Integer);
    assert_eq!(infer_schema_of_csv(bytes, None).unwrap()[0].ty, ColumnType::Text);
}

#[test]
fn a_header_only_file_gives_text_columns() {
    let schema = infer_schema_of_csv(b"a,b\n", None).unwrap();
    assert_eq!(schema.len(), 2);
    assert_eq!(schema[1].name, "b");
    assert_eq!(schema[1].ty, ColumnType::Text);
}

#[test]
fn a_record_of_the_wrong_length_is_a_record_error() {
    let r = infer_schema_of_csv(b"a,b\n1,2\n1,2,3\n", None);
    assert!(matches!(r, Err(CsvDecodeError::Record(_))));
}

#[test]
fn a_header_that_is_not_utf8_is_a_header_error() {
    let r = infer_schema_of_csv(b"a,\xff\n1,2\n", None);
    assert!(matches!(r, Err(CsvDecodeError::Header(_))));
}
