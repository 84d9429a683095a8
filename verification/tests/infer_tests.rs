use csvschema::infer::{infer_schema, ColumnType};

fn rows(data: &[&[&str]]) -> Vec<Vec<String>> {
    data.iter()
        .map(|r| r.iter().map(|s| s.to_string()).collect())
        .collect()
}

fn headers(names: &[&str]) -> Vec<String> {
    names.iter().map(|s| s.to_string()).collect()
}

#[test]
fn all_integer_column_infers_integer_not_nullable() {
    let h = headers(&["id"]);
    let r = rows(&[&["1"], &["2"], &["3"]]);
    let schema = infer_schema(&h, r, None);
    assert_eq!(schema[0].ty, ColumnType::Integer);
    assert!(!schema[0].nullable);
}

#[test]
fn a_value_exceeding_i32_widens_to_bigint() {
    let h = headers(&["big"]);
    let r = rows(&[&["1"], &["5000000000"]]);
    let schema = infer_schema(&h, r, None);
    assert_eq!(schema[0].ty, ColumnType::BigInt);
}

#[test]
fn mixed_int_and_decimal_infers_double() {
    let h = headers(&["price"]);
    let r = rows(&[&["10"], &["9.99"], &["3.5"]]);
    let schema = infer_schema(&h, r, None);
    assert_eq!(schema[0].ty, ColumnType::Double);
}

#[test]
fn true_false_strings_infer_boolean() {
    let h = headers(&["active"]);
    let r = rows(&[&["true"], &["false"], &["TRUE"], &["False"]]);
    let schema = infer_schema(&h, r, None);
    assert_eq!(schema[0].ty, ColumnType::Boolean);
}

#[test]
fn iso_dates_infer_date() {
    let h = headers(&["signup"]);
    let r = rows(&[&["2023-01-15"], &["2024-06-30"]]);
    let schema = infer_schema(&h, r, None);
    assert_eq!(schema[0].ty, ColumnType::Date);
}

#[test]
fn plain_strings_infer_text() {
    let h = headers(&["name"]);
    let r = rows(&[&["Alice"], &["Bob O'Brien"]]);
    let schema = infer_schema(&h, r, None);
    assert_eq!(schema[0].ty, ColumnType::Text);
}

#[test]
fn any_empty_value_makes_the_column_nullable() {
    let h = headers(&["middle_name"]);
    let r = rows(&[&["Ray"], &[""], &["Lee"]]);
    let schema = infer_schema(&h, r, None);
    assert!(schema[0].nullable);
    // The empty cell doesn't disqualify the type inferred from the rest.
    assert_eq!(schema[0].ty, ColumnType::Text);
}

#[test]
fn a_column_that_is_empty_in_every_row_falls_back_to_text() {
    let h = headers(&["notes"]);
    let r = rows(&[&[""], &[""]]);
    let schema = infer_schema(&h, r, None);
    assert_eq!(schema[0].ty, ColumnType::Text);
    assert!(schema[0].nullable);
}

#[test]
fn zero_padded_numeric_string_infers_text_not_integer() {
    let h = headers(&["zip"]);
    let r = rows(&[&["02134"], &["94107"]]);
    let schema = infer_schema(&h, r, None);
    // 02134 is not integer-parseable under our rule (leading zero), so the
    // whole column, the non-padded 94107 included, falls back to TEXT.
    assert_eq!(schema[0].ty, ColumnType::Text);
}

// 999 clean integers plus one non-numeric value must widen the whole column
// to TEXT: the inference scans every row, not just the first one.
#[test]
fn a_single_bad_value_late_in_a_long_column_widens_the_whole_column_to_text() {
    let h = headers(&["mostly_int"]);
    let mut data: Vec<Vec<String>> = (0..999).map(|i| vec![i.to_string()]).collect();
    data.push(vec!["N/A".to_string()]);
    let schema = infer_schema(&h, data, None);
    assert_eq!(schema[0].ty, ColumnType::Text);
}

#[test]
fn sample_limit_only_examines_the_first_n_rows() {
    let h = headers(&["mostly_int"]);
    let mut data: Vec<Vec<String>> = (0..999).map(|i| vec![i.to_string()]).collect();
    data.push(vec!["N/A".to_string()]); // row 999, past a 500-row sample
    let schema = infer_schema(&h, data, Some(500));
    // With sampling capped before the bad row, the column looks like a clean
    // integer column: the tradeoff of a sample, not a bug.
    assert_eq!(schema[0].ty, ColumnType::Integer);
}

#[test]
fn missing_trailing_field_is_treated_as_an_empty_nullable_value() {
    let h = headers(&["a", "b"]);
    let r = vec![
        vec!["1".to_string()],
        vec!["2".to_string(), "3".to_string()],
    ];
    let schema = infer_schema(&h, r, None);
    assert!(schema[1].nullable);
    assert_eq!(schema[1].ty, ColumnType::Integer);
}

#[test]
fn negative_integers_are_recognized() {
    let h = headers(&["delta"]);
    let r = rows(&[&["-5"], &["10"], &["-2147483649"]]);
    let schema = infer_schema(&h, r, None);
    assert_eq!(schema[0].ty, ColumnType::BigInt);
}

#[test]
fn a_realistic_mixed_schema_infers_every_column_correctly() {
    let h = headers(&[
        "id",
        "name",
        "email",
        "age",
        "active",
        "signup_date",
        "middle_name",
    ]);
    let r = rows(&[
        &[
            "1",
            "Alice",
            "alice@example.com",
            "30",
            "true",
            "2023-01-15",
            "Jane",
        ],
        &[
            "2",
            "Bob",
            "bob@example.com",
            "25",
            "false",
            "2023-02-20",
            "",
        ],
        &[
            "3",
            "Carol",
            "carol@example.com",
            "40",
            "true",
            "2023-03-05",
            "Ann",
        ],
    ]);
    let schema = infer_schema(&h, r, None);
    assert_eq!(schema[0].ty, ColumnType::Integer); // id
    assert_eq!(schema[1].ty, ColumnType::Text); // name
    assert_eq!(schema[2].ty, ColumnType::Text); // email
    assert_eq!(schema[3].ty, ColumnType::Integer); // age
    assert_eq!(schema[4].ty, ColumnType::Boolean); // active
    assert_eq!(schema[5].ty, ColumnType::Date); // signup_date
    assert_eq!(schema[6].ty, ColumnType::Text); // middle_name
    assert!(schema[6].nullable);
    assert!(!schema[0].nullable);
}
