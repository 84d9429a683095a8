# csvschema

Infers a SQL `CREATE TABLE` statement from the values of a CSV file: each
column's type and nullability come from every sampled row.

- `src/text.rs`: recognizers for the literals a cell may hold (integers as
  `i64` parsing accepts them, decimal numerals, `true`/`false` in any case,
  zero-padded numbers, strict `YYYY-MM-DD` dates), each proved equal to a
  spec function over the cell's characters.
- `src/infer.rs`: `infer_schema`, proved to give each column the type
  `column_type` and the nullability `column_nullable` of its sampled cells,
  with the laws that row order and repeats do not matter, that a sample
  limit takes a prefix of the rows, and that more rows only widen a column.
- `src/sql.rs`: `render_create_table`, proved to produce exactly
  `create_table_sql`, and identifier quoting, proved to read back as the
  name it quoted.
- `src/decode.rs`: `infer_schema_of_csv`, which decodes a file's bytes with
  the `csv` crate and infers the schema of what it decoded.
- `src/table_name.rs`: the default table name, the stem of the file's path.
- `app/main.rs`: the command line, reading the file, printing.
