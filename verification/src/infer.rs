//! Column type and nullability inference over the rows of a CSV file.

use vstd::prelude::*;

use crate::text::{integer_literal, is_digit, is_exponent_marker, is_sign, lemma_bool_literal_starts_with_a_letter, lemma_date_is_no_numeral, lemma_numerals_use_numeral_characters, 
    chars_of, has_leading_zero_padding, has_leading_zero_padding_chars, is_bool_literal,
    is_bool_literal_chars, is_signed_decimal, is_signed_decimal_chars, is_iso_date,
    is_iso_date_chars, parse_i64, parse_i64_chars,
};

verus! {

broadcast use vstd::string::group_string_axioms;

/// A SQL column type this library is willing to infer: a small, portable
/// subset, with no engine-specific types such as `SERIAL` or `VARCHAR(n)`.
#[derive(Debug, Clone, Copy, PartialEq, Eq, Structural)]
pub enum ColumnType {
    Boolean,
    Integer,
    BigInt,
    Double,
    Date,
    Text,
}

/// The SQL spelling of a column type.
pub open spec fn sql_type_name(t: ColumnType) -> Seq<char> {
    match t {
        ColumnType::Boolean => "BOOLEAN"@,
        ColumnType::Integer => "INTEGER"@,
        ColumnType::BigInt => "BIGINT"@,
        ColumnType::Double => "DOUBLE PRECISION"@,
        ColumnType::Date => "DATE"@,
        ColumnType::Text => "TEXT"@,
    }
}

impl ColumnType {
    /// The SQL spelling of this type, as it appears in `CREATE TABLE`.
    pub fn sql_name(&self) -> (s: &'static str)
        ensures
            s@ == sql_type_name(*self),
    {
        match self {
            ColumnType::Boolean => "BOOLEAN",
            ColumnType::Integer => "INTEGER",
            ColumnType::BigInt => "BIGINT",
            ColumnType::Double => "DOUBLE PRECISION",
            ColumnType::Date => "DATE",
            ColumnType::Text => "TEXT",
        }
    }
}

/// One inferred column: its header, its type, and whether it may be NULL.
#[derive(Debug, Clone, PartialEq, Eq)]
pub struct ColumnSchema {
    pub name: String,
    pub ty: ColumnType,
    pub nullable: bool,
}

// ---------------------------------------------------------------------------
// What a column's values make of it
// ---------------------------------------------------------------------------

/// A value that reads as a 64-bit integer and is not zero-padded.
pub open spec fn cell_is_int(v: Seq<char>) -> bool {
    !has_leading_zero_padding(v) && parse_i64(v) is Some
}

/// An integer value outside the range of a 32-bit `INTEGER`.
pub open spec fn cell_needs_bigint(v: Seq<char>) -> bool {
    cell_is_int(v) && (parse_i64(v).unwrap() < i32::MIN || parse_i64(v).unwrap() > i32::MAX)
}

/// A value that is a decimal numeral and is not zero-padded.
pub open spec fn cell_is_double(v: Seq<char>) -> bool {
    !has_leading_zero_padding(v) && is_signed_decimal(v)
}

/// Some cell of the column holds a value.
pub open spec fn has_value(cells: Seq<Seq<char>>) -> bool {
    exists|i: int| 0 <= i < cells.len() && #[trigger] cells[i].len() > 0
}

/// Some cell of the column is empty.
pub open spec fn has_empty(cells: Seq<Seq<char>>) -> bool {
    exists|i: int| 0 <= i < cells.len() && #[trigger] cells[i].len() == 0
}

pub open spec fn all_bool(cells: Seq<Seq<char>>) -> bool {
    forall|i: int| 0 <= i < cells.len() && cells[i].len() > 0 ==> is_bool_literal(#[trigger] cells[i])
}

pub open spec fn all_int(cells: Seq<Seq<char>>) -> bool {
    forall|i: int| 0 <= i < cells.len() && cells[i].len() > 0 ==> cell_is_int(#[trigger] cells[i])
}

pub open spec fn any_bigint(cells: Seq<Seq<char>>) -> bool {
    exists|i: int| 0 <= i < cells.len() && cells[i].len() > 0 && cell_needs_bigint(#[trigger] cells[i])
}

pub open spec fn all_double(cells: Seq<Seq<char>>) -> bool {
    forall|i: int| 0 <= i < cells.len() && cells[i].len() > 0 ==> cell_is_double(#[trigger] cells[i])
}

pub open spec fn all_date(cells: Seq<Seq<char>>) -> bool {
    forall|i: int| 0 <= i < cells.len() && cells[i].len() > 0 ==> is_iso_date(#[trigger] cells[i])
}

/// The type of a column whose cells are `cells`: the most specific type
/// that every non-empty value fits, and `TEXT` for a column with no value.
pub open spec fn column_type(cells: Seq<Seq<char>>) -> ColumnType {
    if !has_value(cells) {
        ColumnType::Text
    } else if all_bool(cells) {
        ColumnType::Boolean
    } else if all_int(cells) {
        if any_bigint(cells) {
            ColumnType::BigInt
        } else {
            ColumnType::Integer
        }
    } else if all_double(cells) {
        ColumnType::Double
    } else if all_date(cells) {
        ColumnType::Date
    } else {
        ColumnType::Text
    }
}

/// A column is nullable exactly when one of its cells is empty.
pub open spec fn column_nullable(cells: Seq<Seq<char>>) -> bool {
    has_empty(cells)
}

// ---------------------------------------------------------------------------
// The per-column accumulator
// ---------------------------------------------------------------------------

/// Evidence about one column across every row seen so far. Each
/// `could_be_*` flag starts true and is only ever narrowed, so one
/// disqualifying value anywhere widens the whole column.
#[derive(Debug, Clone, Copy)]
struct ColumnAcc {
    saw_any_value: bool,
    nullable: bool,
    could_be_bool: bool,
    could_be_int: bool,
    needs_bigint: bool,
    could_be_double: bool,
    could_be_date: bool,
}

impl ColumnAcc {
    /// The accumulator holds exactly the evidence of the cells `cells`.
    spec fn summarizes(self, cells: Seq<Seq<char>>) -> bool {
        &&& self.saw_any_value == has_value(cells)
        &&& self.nullable == has_empty(cells)
        &&& self.could_be_bool == all_bool(cells)
        &&& self.could_be_int == all_int(cells)
        &&& self.needs_bigint == any_bigint(cells)
        &&& self.could_be_double == all_double(cells)
        &&& self.could_be_date == all_date(cells)
    }

    fn new() -> (acc: Self)
        ensures
            acc.summarizes(Seq::empty()),
    {
        ColumnAcc {
            saw_any_value: false,
            nullable: false,
            could_be_bool: true,
            could_be_int: true,
            needs_bigint: false,
            could_be_double: true,
            could_be_date: true,
        }
    }

    /// Takes one more cell of the column into account.
    fn observe(&mut self, raw: &str, Ghost(cells): Ghost<Seq<Seq<char>>>)
        requires
            old(self).summarizes(cells),
        ensures
            final(self).summarizes(cells.push(raw@)),
            final(self).could_be_bool ==> old(self).could_be_bool,
            final(self).could_be_int ==> old(self).could_be_int,
            final(self).could_be_double ==> old(self).could_be_double,
            final(self).could_be_date ==> old(self).could_be_date,
            old(self).saw_any_value ==> final(self).saw_any_value,
            old(self).nullable ==> final(self).nullable,
            old(self).needs_bigint ==> final(self).needs_bigint,
    {
        proof {
            lemma_summaries_push(cells, raw@);
        }
        if raw.is_empty() {
            self.nullable = true;
            return;
        }
        self.saw_any_value = true;
        let c = chars_of(raw);
        if !is_bool_literal_chars(&c) {
            self.could_be_bool = false;
        }
        if has_leading_zero_padding_chars(&c) {
            // "00123" looks numeric, but the leading zero marks a code (a zip
            // code, a padded SKU), not a number: only TEXT keeps the zero.
            self.could_be_int = false;
            self.could_be_double = false;
        } else {
            match parse_i64_chars(&c) {
                Some(v) => {
                    if v < -2147483648 || v > 2147483647 {
                        self.needs_bigint = true;
                    }
                },
                None => {
                    self.could_be_int = false;
                },
            }
            if !is_signed_decimal_chars(&c) {
                self.could_be_double = false;
            }
        }
        if !is_iso_date_chars(&c) {
            self.could_be_date = false;
        }
    }

    /// The type the evidence so far supports.
    fn resolve(&self, Ghost(cells): Ghost<Seq<Seq<char>>>) -> (t: ColumnType)
        requires
            self.summarizes(cells),
        ensures
            t == column_type(cells),
    {
        if !self.saw_any_value {
            // Every cell was empty: there is no evidence of a real type, so
            // fall back to the always-safe TEXT.
            return ColumnType::Text;
        }
        if self.could_be_bool {
            ColumnType::Boolean
        } else if self.could_be_int {
            if self.needs_bigint {
                ColumnType::BigInt
            } else {
                ColumnType::Integer
            }
        } else if self.could_be_double {
            ColumnType::Double
        } else if self.could_be_date {
            ColumnType::Date
        } else {
            ColumnType::Text
        }
    }
}

/// How each summary of a column changes when one more cell is appended: the
/// `all_*` summaries can only turn false, and `has_value`, `has_empty` and
/// `any_bigint` can only turn true. These are the narrowing and widening of
/// the accumulator's flags, one cell at a time.
pub proof fn lemma_summaries_push(cells: Seq<Seq<char>>, v: Seq<char>)
    ensures
        has_value(cells.push(v)) == (has_value(cells) || v.len() > 0),
        has_empty(cells.push(v)) == (has_empty(cells) || v.len() == 0),
        all_bool(cells.push(v)) == (all_bool(cells) && (v.len() > 0 ==> is_bool_literal(v))),
        all_int(cells.push(v)) == (all_int(cells) && (v.len() > 0 ==> cell_is_int(v))),
        any_bigint(cells.push(v)) == (any_bigint(cells) || (v.len() > 0 && cell_needs_bigint(v))),
        all_double(cells.push(v)) == (all_double(cells) && (v.len() > 0 ==> cell_is_double(v))),
        all_date(cells.push(v)) == (all_date(cells) && (v.len() > 0 ==> is_iso_date(v))),
{
    let p = cells.push(v);
    let n = cells.len() as int;
    assert(p[n] == v);
    assert forall|i: int| #![trigger p[i]] #![trigger cells[i]] 0 <= i < n implies p[i] == cells[i] by {}
    if has_value(cells) {
        let i = choose|i: int| 0 <= i < cells.len() && #[trigger] cells[i].len() > 0;
        assert(p[i] == cells[i]);
    }
    if has_empty(cells) {
        let i = choose|i: int| 0 <= i < cells.len() && #[trigger] cells[i].len() == 0;
        assert(p[i] == cells[i]);
    }
    if any_bigint(cells) {
        let i = choose|i: int|
            0 <= i < cells.len() && cells[i].len() > 0 && cell_needs_bigint(#[trigger] cells[i]);
        assert(p[i] == cells[i]);
    }
}


// ---------------------------------------------------------------------------
// Tables
// ---------------------------------------------------------------------------

/// The cell of column `i` in `row`: a row shorter than the header has an
/// empty value in each missing trailing field.
pub open spec fn cell(row: Seq<Seq<char>>, i: int) -> Seq<char> {
    if 0 <= i < row.len() {
        row[i]
    } else {
        Seq::empty()
    }
}

/// The cells of column `i`, one per row.
pub open spec fn column(rows: Seq<Seq<Seq<char>>>, i: int) -> Seq<Seq<char>> {
    Seq::new(rows.len(), |r: int| cell(rows[r], i))
}

/// The rows examined under a sample limit: the first `n` rows for
/// `Some(n)`, every row for `None`.
pub open spec fn sampled(rows: Seq<Seq<Seq<char>>>, limit: Option<usize>) -> Seq<Seq<Seq<char>>> {
    match limit {
        Some(n) => if n < rows.len() { rows.take(n as int) } else { rows },
        None => rows,
    }
}

/// The schema inferred from `headers` and the sampled `rows`: one column per
/// header, in order, named after it, typed by `column_type` and nullable by
/// `column_nullable` over that column's sampled cells.
pub open spec fn inferred_schema_matches(
    schema: Seq<ColumnSchema>,
    headers: Seq<Seq<char>>,
    rows: Seq<Seq<Seq<char>>>,
    limit: Option<usize>,
) -> bool {
    &&& schema.len() == headers.len()
    &&& forall|i: int|
        #![trigger schema[i]]
        0 <= i < headers.len() ==> {
            &&& schema[i].name@ == headers[i]
            &&& schema[i].ty == column_type(column(sampled(rows, limit), i))
            &&& schema[i].nullable == column_nullable(column(sampled(rows, limit), i))
        }
}

/// Infers a schema from `headers` plus the rows in `rows`, examining at most
/// `sample_limit` rows if given (`None` scans every row).
pub fn infer_schema(headers: &[String], rows: Vec<Vec<String>>, sample_limit: Option<usize>) -> (schema: Vec<ColumnSchema>)
    ensures
        inferred_schema_matches(schema@, headers.deep_view(), rows.deep_view(), sample_limit),
{
    let ghost table = rows.deep_view();
    let ncols = headers.len();
    let mut accs: Vec<ColumnAcc> = Vec::new();
    let mut k: usize = 0;
    while k < ncols
        invariant
            ncols == headers@.len(),
            k <= ncols,
            accs@.len() == k,
            forall|j: int| 0 <= j < k ==> (#[trigger] accs@[j]).summarizes(Seq::empty()),
        decreases ncols - k,
    {
        accs.push(ColumnAcc::new());
        k = k + 1;
    }
    let n_rows: usize = match sample_limit {
        Some(limit) => if limit < rows.len() { limit } else { rows.len() },
        None => rows.len(),
    };
    let mut r: usize = 0;
    while r < n_rows
        invariant
            ncols == headers@.len(),
            n_rows <= rows@.len(),
            table == rows.deep_view(),
            r <= n_rows,
            accs@.len() == ncols,
            forall|j: int| 0 <= j < ncols ==> (#[trigger] accs@[j]).summarizes(column(table.take(r as int), j)),
        decreases n_rows - r,
    {
        let row = &rows[r];
        assert(table[r as int] == row.deep_view());
        let mut j: usize = 0;
        while j < ncols
            invariant
                ncols == headers@.len(),
                n_rows <= rows@.len(),
                table == rows.deep_view(),
                r < n_rows,
                j <= ncols,
                accs@.len() == ncols,
                table[r as int] == row.deep_view(),
                forall|i: int| 0 <= i < j ==> (#[trigger] accs@[i]).summarizes(column(table.take(r + 1), i)),
                forall|i: int| j <= i < ncols ==> (#[trigger] accs@[i]).summarizes(column(table.take(r as int), i)),
            decreases ncols - j,
        {
            let value: &str = if j < row.len() { row[j].as_str() } else { "" };
            assert(value@ == cell(table[r as int], j as int)) by {
                if j >= row.len() {
                    reveal_strlit("");
                }
            }
            let ghost before = column(table.take(r as int), j as int);
            let mut acc = accs[j];
            acc.observe(value, Ghost(before));
            accs.set(j, acc);
            assert(before.push(value@) =~= column(table.take(r + 1), j as int));
            j = j + 1;
        }
        r = r + 1;
    }
    assert(table.take(n_rows as int) =~= sampled(table, sample_limit));
    let mut schema: Vec<ColumnSchema> = Vec::new();
    let mut i: usize = 0;
    while i < ncols
        invariant
            ncols == headers@.len(),
            table == rows.deep_view(),
            table.take(n_rows as int) == sampled(table, sample_limit),
            accs@.len() == ncols,
            forall|j: int| 0 <= j < ncols ==> (#[trigger] accs@[j]).summarizes(column(table.take(n_rows as int), j)),
            i <= ncols,
            schema@.len() == i,
            forall|j: int|
                #![trigger schema@[j]]
                0 <= j < i ==> {
                    &&& schema@[j].name@ == headers@[j]@
                    &&& schema@[j].ty == column_type(column(sampled(table, sample_limit), j))
                    &&& schema@[j].nullable == column_nullable(column(sampled(table, sample_limit), j))
                },
        decreases ncols - i,
    {
        let acc = accs[i];
        let ty = acc.resolve(Ghost(column(table.take(n_rows as int), i as int)));
        schema.push(ColumnSchema { name: headers[i].clone(), ty, nullable: acc.nullable });
        i = i + 1;
    }
    schema
}


// ---------------------------------------------------------------------------
// Laws of column inference
// ---------------------------------------------------------------------------

/// The position of a type in the ranking from most to least specific:
/// BOOLEAN, INTEGER, BIGINT, DOUBLE PRECISION, DATE, TEXT.
pub open spec fn type_rank(t: ColumnType) -> int {
    match t {
        ColumnType::Boolean => 0,
        ColumnType::Integer => 1,
        ColumnType::BigInt => 2,
        ColumnType::Double => 3,
        ColumnType::Date => 4,
        ColumnType::Text => 5,
    }
}

/// Every value that `b` holds, `a` holds too.
pub open spec fn values_within(b: Seq<Seq<char>>, a: Seq<Seq<char>>) -> bool {
    forall|i: int| 0 <= i < b.len() ==> a.contains(#[trigger] b[i])
}

/// The summaries of a column only narrow from the cells of `a` to those of
/// a column `b` whose values all occur in `a`.
proof fn lemma_summaries_within(b: Seq<Seq<char>>, a: Seq<Seq<char>>)
    requires
        values_within(b, a),
    ensures
        has_value(b) ==> has_value(a),
        has_empty(b) ==> has_empty(a),
        all_bool(a) ==> all_bool(b),
        all_int(a) ==> all_int(b),
        any_bigint(b) ==> any_bigint(a),
        all_double(a) ==> all_double(b),
        all_date(a) ==> all_date(b),
{
    assert forall|i: int| 0 <= i < b.len() implies exists|j: int| 0 <= j < a.len() && #[trigger] a[j] == #[trigger] b[i] by {
        assert(a.contains(b[i]));
    }
    if has_value(b) {
        let i = choose|i: int| 0 <= i < b.len() && #[trigger] b[i].len() > 0;
        let j = choose|j: int| 0 <= j < a.len() && #[trigger] a[j] == b[i];
        assert(a[j].len() > 0);
    }
    if has_empty(b) {
        let i = choose|i: int| 0 <= i < b.len() && #[trigger] b[i].len() == 0;
        let j = choose|j: int| 0 <= j < a.len() && #[trigger] a[j] == b[i];
        assert(a[j].len() == 0);
    }
    if any_bigint(b) {
        let i = choose|i: int| 0 <= i < b.len() && b[i].len() > 0 && cell_needs_bigint(#[trigger] b[i]);
        let j = choose|j: int| 0 <= j < a.len() && #[trigger] a[j] == b[i];
        assert(cell_needs_bigint(a[j]));
    }
    assert forall|i: int| 0 <= i < b.len() && b[i].len() > 0 implies {
        &&& (all_bool(a) ==> is_bool_literal(#[trigger] b[i]))
        &&& (all_int(a) ==> cell_is_int(b[i]))
        &&& (all_double(a) ==> cell_is_double(b[i]))
        &&& (all_date(a) ==> is_iso_date(b[i]))
    } by {
        let j = choose|j: int| 0 <= j < a.len() && #[trigger] a[j] == b[i];
        assert(a[j] == b[i]);
    }
}

/// A column's type and nullability depend only on which values occur in it,
/// not on the order of the rows or on how often a value repeats.
pub proof fn lemma_inference_ignores_row_order(a: Seq<Seq<char>>, b: Seq<Seq<char>>)
    requires
        a.to_set() == b.to_set(),
    ensures
        column_type(a) == column_type(b),
        column_nullable(a) == column_nullable(b),
{
    assert forall|i: int| 0 <= i < b.len() implies a.contains(#[trigger] b[i]) by {
        assert(b.to_set().contains(b[i]));
    }
    assert forall|i: int| 0 <= i < a.len() implies b.contains(#[trigger] a[i]) by {
        assert(a.to_set().contains(a[i]));
    }
    lemma_summaries_within(b, a);
    lemma_summaries_within(a, b);
}

/// More rows can only widen a column that already holds a value: its type
/// moves down the ranking or stays, and once TEXT it stays TEXT. This is
/// what lets one bad value late in a long column widen the whole column.
pub proof fn lemma_more_rows_only_widen(cells: Seq<Seq<char>>, more: Seq<Seq<char>>)
    requires
        has_value(cells),
    ensures
        type_rank(column_type(cells)) <= type_rank(column_type(cells + more)),
        column_nullable(cells) ==> column_nullable(cells + more),
{
    let all = cells + more;
    assert forall|i: int| 0 <= i < cells.len() implies all.contains(#[trigger] cells[i]) by {
        assert(all[i] == cells[i]);
    }
    lemma_summaries_within(cells, all);
}


/// Observing two cells in either order, or one cell twice, gives a column
/// the same type and nullability.
pub proof fn lemma_observations_commute_and_repeat(cells: Seq<Seq<char>>, x: Seq<char>, y: Seq<char>)
    ensures
        column_type(cells.push(x).push(y)) == column_type(cells.push(y).push(x)),
        column_nullable(cells.push(x).push(y)) == column_nullable(cells.push(y).push(x)),
        column_type(cells.push(x).push(x)) == column_type(cells.push(x)),
        column_nullable(cells.push(x).push(x)) == column_nullable(cells.push(x)),
{
    lemma_summaries_push(cells, x);
    lemma_summaries_push(cells, y);
    lemma_summaries_push(cells.push(x), y);
    lemma_summaries_push(cells.push(y), x);
    lemma_summaries_push(cells.push(x), x);
}

/// A schema inferred with the sample limit `Some(n)` is the schema of the
/// first `n` rows (all of them when there are fewer) inferred with no limit.
pub proof fn lemma_sample_limit_takes_a_prefix(
    schema: Seq<ColumnSchema>,
    headers: Seq<Seq<char>>,
    rows: Seq<Seq<Seq<char>>>,
    n: usize,
)
    ensures
        inferred_schema_matches(schema, headers, rows, Some(n)) == inferred_schema_matches(
            schema,
            headers,
            rows.take(if n < rows.len() { n as int } else { rows.len() as int }),
            None,
        ),
{
    assert(rows.take(rows.len() as int) =~= rows);
}

/// Two row lists with the same rows, in any order and with any repeats,
/// give the same schema: the same names, types and nullability.
pub proof fn lemma_schema_ignores_row_order(
    s1: Seq<ColumnSchema>,
    s2: Seq<ColumnSchema>,
    headers: Seq<Seq<char>>,
    a: Seq<Seq<Seq<char>>>,
    b: Seq<Seq<Seq<char>>>,
)
    requires
        a.to_set() == b.to_set(),
        inferred_schema_matches(s1, headers, a, None),
        inferred_schema_matches(s2, headers, b, None),
    ensures
        s1.len() == s2.len(),
        forall|i: int|
            #![trigger s1[i]]
            0 <= i < s1.len() ==> s1[i].name@ == s2[i].name@ && s1[i].ty == s2[i].ty
                && s1[i].nullable == s2[i].nullable,
{
    assert forall|i: int| 0 <= i < s1.len() implies s1[i].name@ == s2[i].name@ && #[trigger] s1[i].ty
        == s2[i].ty && s1[i].nullable == s2[i].nullable by {
        let ca = column(a, i);
        let cb = column(b, i);
        assert forall|x: Seq<char>| ca.to_set().contains(x) implies cb.to_set().contains(x) by {
            let r = choose|r: int| 0 <= r < ca.len() && ca[r] == x;
            assert(a.to_set().contains(a[r]));
            assert(b.to_set().contains(a[r]));
            let r2 = choose|r2: int| 0 <= r2 < b.len() && b[r2] == a[r];
            assert(cb[r2] == x);
        }
        assert forall|x: Seq<char>| cb.to_set().contains(x) implies ca.to_set().contains(x) by {
            let r = choose|r: int| 0 <= r < cb.len() && cb[r] == x;
            assert(b.to_set().contains(b[r]));
            assert(a.to_set().contains(b[r]));
            let r2 = choose|r2: int| 0 <= r2 < a.len() && a[r2] == b[r];
            assert(ca[r2] == x);
        }
        assert(ca.to_set() =~= cb.to_set());
        lemma_inference_ignores_row_order(ca, cb);
        assert(s2[i].ty == column_type(cb));
    }
}


/// Every non-empty value of `b` occurs in `a`.
pub open spec fn nonempty_values_within(b: Seq<Seq<char>>, a: Seq<Seq<char>>) -> bool {
    forall|i: int| 0 <= i < b.len() && b[i].len() > 0 ==> a.contains(#[trigger] b[i])
}

proof fn lemma_value_summaries_within(b: Seq<Seq<char>>, a: Seq<Seq<char>>)
    requires
        nonempty_values_within(b, a),
    ensures
        has_value(b) ==> has_value(a),
        all_bool(a) ==> all_bool(b),
        all_int(a) ==> all_int(b),
        any_bigint(b) ==> any_bigint(a),
        all_double(a) ==> all_double(b),
        all_date(a) ==> all_date(b),
{
    assert forall|i: int| 0 <= i < b.len() && b[i].len() > 0 implies exists|j: int|
        0 <= j < a.len() && #[trigger] a[j] == #[trigger] b[i] by {
        assert(a.contains(b[i]));
    }
    if has_value(b) {
        let i = choose|i: int| 0 <= i < b.len() && #[trigger] b[i].len() > 0;
        let j = choose|j: int| 0 <= j < a.len() && #[trigger] a[j] == b[i];
        assert(a[j].len() > 0);
    }
    if any_bigint(b) {
        let i = choose|i: int| 0 <= i < b.len() && b[i].len() > 0 && cell_needs_bigint(#[trigger] b[i]);
        let j = choose|j: int| 0 <= j < a.len() && #[trigger] a[j] == b[i];
        assert(cell_needs_bigint(a[j]));
    }
    assert forall|i: int| 0 <= i < b.len() && b[i].len() > 0 implies {
        &&& (all_bool(a) ==> is_bool_literal(#[trigger] b[i]))
        &&& (all_int(a) ==> cell_is_int(b[i]))
        &&& (all_double(a) ==> cell_is_double(b[i]))
        &&& (all_date(a) ==> is_iso_date(b[i]))
    } by {
        let j = choose|j: int| 0 <= j < a.len() && #[trigger] a[j] == b[i];
        assert(a[j] == b[i]);
    }
}

/// Empty cells never influence a column's type: two columns that hold a
/// value and have the same non-empty values, whatever empty cells either
/// has, get the same type. In particular adding an empty cell to a column
/// with a value keeps its type.
pub proof fn lemma_empty_cells_do_not_change_the_type(a: Seq<Seq<char>>, b: Seq<Seq<char>>)
    requires
        exists|i: int| 0 <= i < a.len() && #[trigger] a[i].len() > 0,
        nonempty_values_within(a, b),
        nonempty_values_within(b, a),
    ensures
        column_type(a) == column_type(b),
        column_type(a.push(Seq::empty())) == column_type(a),
{
    lemma_value_summaries_within(a, b);
    lemma_value_summaries_within(b, a);
    let e = a.push(Seq::empty());
    assert forall|i: int| 0 <= i < e.len() && e[i].len() > 0 implies a.contains(#[trigger] e[i]) by {
        assert(a[i] == e[i]);
    }
    assert forall|i: int| 0 <= i < a.len() && a[i].len() > 0 implies e.contains(#[trigger] a[i]) by {
        assert(e[i] == a[i]);
    }
    lemma_value_summaries_within(e, a);
    lemma_value_summaries_within(a, e);
}

/// A column whose non-empty values are all 64-bit integers without zero
/// padding, one of them outside the 32-bit range, is BIGINT, whether or not
/// it also has empty cells.
pub proof fn lemma_wide_integer_column_is_bigint(cells: Seq<Seq<char>>, k: int)
    requires
        0 <= k < cells.len(),
        cells[k].len() > 0,
        parse_i64(cells[k]) matches Some(v) && (v < i32::MIN || v > i32::MAX),
        forall|i: int|
            0 <= i < cells.len() && cells[i].len() > 0 ==> !has_leading_zero_padding(
                #[trigger] cells[i],
            ) && parse_i64(cells[i]) is Some,
    ensures
        column_type(cells) == ColumnType::BigInt,
{
    assert(cell_needs_bigint(cells[k]));
    if is_bool_literal(cells[k]) {
        crate::text::lemma_bool_literal_is_no_integer(cells[k]);
    }
}

/// A column is nullable exactly when one of its sampled cells is empty or
/// missing, whatever its values are: a column with no empty cell is never
/// nullable, whatever its type.
pub proof fn lemma_nullable_exactly_when_a_cell_is_empty(
    schema: Seq<ColumnSchema>,
    headers: Seq<Seq<char>>,
    rows: Seq<Seq<Seq<char>>>,
    limit: Option<usize>,
    i: int,
)
    requires
        inferred_schema_matches(schema, headers, rows, limit),
        0 <= i < headers.len(),
    ensures
        schema[i].nullable <==> exists|r: int|
            0 <= r < sampled(rows, limit).len() && (i >= #[trigger] sampled(rows, limit)[r].len()
                || sampled(rows, limit)[r][i].len() == 0),
{
    let rs = sampled(rows, limit);
    let c = column(rs, i);
    assert(schema[i].nullable == has_empty(c));
    if has_empty(c) {
        let r = choose|r: int| 0 <= r < c.len() && #[trigger] c[r].len() == 0;
        assert(c[r] == cell(rs[r], i));
    }
    assert forall|r: int|
        0 <= r < rs.len() && (i >= #[trigger] rs[r].len() || rs[r][i].len() == 0) implies has_empty(c) by {
        assert(c[r] == cell(rs[r], i));
        assert(c[r].len() == 0);
    }
}


/// A column with a value whose non-empty values are all `true`/`false` is
/// BOOLEAN.
pub proof fn lemma_boolean_column(cells: Seq<Seq<char>>)
    requires
        exists|i: int| 0 <= i < cells.len() && #[trigger] cells[i].len() > 0,
        forall|i: int| 0 <= i < cells.len() && cells[i].len() > 0 ==> is_bool_literal(#[trigger] cells[i]),
    ensures
        column_type(cells) == ColumnType::Boolean,
{
}

/// A column with a value whose non-empty values are all 64-bit integers in
/// the 32-bit range, none zero-padded, is INTEGER.
pub proof fn lemma_narrow_integer_column_is_integer(cells: Seq<Seq<char>>, k: int)
    requires
        0 <= k < cells.len(),
        cells[k].len() > 0,
        forall|i: int|
            0 <= i < cells.len() && cells[i].len() > 0 ==> !has_leading_zero_padding(
                #[trigger] cells[i],
            ) && parse_i64(cells[i]) is Some && i32::MIN <= parse_i64(cells[i]).unwrap() <= i32::MAX,
    ensures
        column_type(cells) == ColumnType::Integer,
{
    if is_bool_literal(cells[k]) {
        lemma_bool_literal_starts_with_a_letter(cells[k]);
    }
}

/// A column with a value whose non-empty values are all decimal numerals,
/// none zero-padded, one of them no 64-bit integer (such as `9.99`), is
/// DOUBLE PRECISION.
pub proof fn lemma_decimal_column_is_double(cells: Seq<Seq<char>>, k: int)
    requires
        0 <= k < cells.len(),
        cells[k].len() > 0,
        parse_i64(cells[k]) is None,
        forall|i: int|
            0 <= i < cells.len() && cells[i].len() > 0 ==> !has_leading_zero_padding(
                #[trigger] cells[i],
            ) && is_signed_decimal(cells[i]),
    ensures
        column_type(cells) == ColumnType::Double,
{
    if is_bool_literal(cells[k]) {
        lemma_bool_literal_starts_with_a_letter(cells[k]);
    }
}

/// A column with a value whose non-empty values are all `YYYY-MM-DD` dates
/// is DATE.
pub proof fn lemma_date_column(cells: Seq<Seq<char>>, k: int)
    requires
        0 <= k < cells.len(),
        cells[k].len() > 0,
        forall|i: int| 0 <= i < cells.len() && cells[i].len() > 0 ==> is_iso_date(#[trigger] cells[i]),
    ensures
        column_type(cells) == ColumnType::Date,
{
    lemma_date_is_no_numeral(cells[k]);
    if is_bool_literal(cells[k]) {
        lemma_bool_literal_starts_with_a_letter(cells[k]);
    }
}

/// TEXT is the fallback for anything else: one value that is not
/// `true`/`false` and holds a character that no number or date uses (a
/// letter other than `e`, a space, `@`, ...) makes the whole column TEXT.
pub proof fn lemma_wordy_value_makes_text(cells: Seq<Seq<char>>, k: int, j: int)
    requires
        0 <= k < cells.len(),
        !is_bool_literal(cells[k]),
        0 <= j < cells[k].len(),
        !is_digit(cells[k][j]),
        !is_sign(cells[k][j]),
        cells[k][j] != '.',
        !is_exponent_marker(cells[k][j]),
    ensures
        column_type(cells) == ColumnType::Text,
{
    let v = cells[k];
    lemma_numerals_use_numeral_characters(v, j);
    if is_iso_date(v) {
        lemma_date_is_no_numeral(v);
        assert(is_digit(v[j]) || v[j] == '-');
    }
    if v.len() > 0 && is_sign(v[0]) {
        assert(j > 0);
        assert(v.skip(1)[j - 1] == v[j]);
    }
    assert(integer_literal(v) is None);
}

/// A zero-padded value such as `02134` keeps its column from every numeric
/// type and from DATE: the column is TEXT, so the leading zero survives.
pub proof fn lemma_zero_padded_value_makes_text(cells: Seq<Seq<char>>, k: int)
    requires
        0 <= k < cells.len(),
        has_leading_zero_padding(cells[k]),
    ensures
        column_type(cells) == ColumnType::Text,
{
    let v = cells[k];
    if is_bool_literal(v) {
        lemma_bool_literal_starts_with_a_letter(v);
    }
    if is_iso_date(v) {
        let d = if v.len() > 0 && v[0] == '-' { v.skip(1) } else { v };
        if v[0] == '-' {
            assert(d[3] == v[4]);
        } else {
            assert(d[4] == v[4]);
        }
    }
}


/// The six SQL type names are distinct, so the rendered type tells the
/// inferred type.
pub proof fn lemma_sql_type_names_are_distinct(a: ColumnType, b: ColumnType)
    ensures
        sql_type_name(a) == sql_type_name(b) <==> a == b,
{
    reveal_strlit("BOOLEAN");
    reveal_strlit("INTEGER");
    reveal_strlit("BIGINT");
    reveal_strlit("DOUBLE PRECISION");
    reveal_strlit("DATE");
    reveal_strlit("TEXT");
    if a != b {
        let x = sql_type_name(a);
        let y = sql_type_name(b);
        if x.len() == y.len() {
            assert(x[0] != y[0] || x[1] != y[1]);
        }
    }
}

} // verus!
