//! Rendering an inferred schema as a SQL `CREATE TABLE` statement.

use vstd::prelude::*;

use crate::infer::{sql_type_name, ColumnSchema};
use crate::text::{chars_of, is_digit};

verus! {

broadcast use vstd::string::group_string_axioms;

// ---------------------------------------------------------------------------
// Identifiers
// ---------------------------------------------------------------------------

pub open spec fn is_ascii_alphanumeric(c: char) -> bool {
    ||| ('0' <= c && c <= '9')
    ||| ('a' <= c && c <= 'z')
    ||| ('A' <= c && c <= 'Z')
}

/// A name that SQL accepts unquoted: ASCII letters, digits and `_`, not
/// empty and not starting with a digit.
pub open spec fn is_plain_identifier(s: Seq<char>) -> bool {
    &&& s.len() > 0
    &&& forall|i: int| 0 <= i < s.len() ==> is_ascii_alphanumeric(#[trigger] s[i]) || s[i] == '_'
    &&& !is_digit(s[0])
}

/// `s` with every `"` doubled.
pub open spec fn escape_quotes(s: Seq<char>) -> Seq<char>
    decreases s.len(),
{
    if s.len() == 0 {
        Seq::empty()
    } else {
        escape_quotes(s.drop_last()) + if s.last() == '"' {
            seq!['"', '"']
        } else {
            seq![s.last()]
        }
    }
}

/// How a column name appears in SQL: as it is when it is a plain
/// identifier, otherwise inside double quotes with inner quotes doubled.
pub open spec fn quoted_identifier(s: Seq<char>) -> Seq<char> {
    if is_plain_identifier(s) {
        s
    } else {
        seq!['"'] + escape_quotes(s) + seq!['"']
    }
}

/// Appends one character to a `String`.
#[verifier::external_body]
fn push_char(s: &mut String, c: char)
    ensures
        final(s)@ == old(s)@.push(c),
{
    s.push(c);
}

fn is_ascii_alphanumeric_char(c: char) -> (b: bool)
    ensures
        b == is_ascii_alphanumeric(c),
{
    ('0' <= c && c <= '9') || ('a' <= c && c <= 'z') || ('A' <= c && c <= 'Z')
}

fn is_plain_identifier_chars(s: &Vec<char>) -> (b: bool)
    ensures
        b == is_plain_identifier(s@),
{
    if s.len() == 0 || ('0' <= s[0] && s[0] <= '9') {
        return false;
    }
    let mut i: usize = 0;
    while i < s.len()
        invariant
            i <= s@.len(),
            forall|j: int| 0 <= j < i ==> is_ascii_alphanumeric(#[trigger] s@[j]) || s@[j] == '_',
        decreases s@.len() - i,
    {
        let c = s[i];
        if !(is_ascii_alphanumeric_char(c) || c == '_') {
            return false;
        }
        i = i + 1;
    }
    true
}

/// Quotes a column name with double quotes unless it is already a plain SQL
/// identifier; a header such as `first name` or `order#` needs the quotes.
pub fn quote_identifier(name: &str) -> (q: String)
    ensures
        q@ == quoted_identifier(name@),
{
    let c = chars_of(name);
    if is_plain_identifier_chars(&c) {
        return name.to_owned();
    }
    let mut q = String::new();
    push_char(&mut q, '"');
    let mut i: usize = 0;
    while i < c.len()
        invariant
            c@ == name@,
            i <= c@.len(),
            q@ == seq!['"'] + escape_quotes(c@.take(i as int)),
        decreases c@.len() - i,
    {
        let ch = c[i];
        assert(c@.take(i + 1).drop_last() =~= c@.take(i as int));
        if ch == '"' {
            push_char(&mut q, '"');
        }
        push_char(&mut q, ch);
        assert(q@ =~= seq!['"'] + escape_quotes(c@.take(i + 1)));
        i = i + 1;
    }
    push_char(&mut q, '"');
    assert(c@.take(c@.len() as int) =~= c@);
    q
}


// ---------------------------------------------------------------------------
// CREATE TABLE
// ---------------------------------------------------------------------------

/// The lines of `lines` joined by `sep`.
pub open spec fn join_with(lines: Seq<Seq<char>>, sep: Seq<char>) -> Seq<char>
    decreases lines.len(),
{
    if lines.len() == 0 {
        Seq::empty()
    } else if lines.len() == 1 {
        lines[0]
    } else {
        join_with(lines.drop_last(), sep) + sep + lines.last()
    }
}

/// One column's line of the statement: indented name, type, and
/// `NOT NULL` for a column that is not nullable.
pub open spec fn column_definition(col: ColumnSchema) -> Seq<char> {
    "    "@ + quoted_identifier(col.name@) + " "@ + sql_type_name(col.ty) + if col.nullable {
        Seq::empty()
    } else {
        " NOT NULL"@
    }
}

pub open spec fn column_definitions(cols: Seq<ColumnSchema>) -> Seq<Seq<char>> {
    Seq::new(cols.len(), |i: int| column_definition(cols[i]))
}

/// The full statement: `CREATE TABLE <table> (`, the column lines separated
/// by `,` and a newline, then `);`.
pub open spec fn create_table_sql(table: Seq<char>, cols: Seq<ColumnSchema>) -> Seq<char> {
    "CREATE TABLE "@ + table + " (\n"@ + join_with(column_definitions(cols), ",\n"@) + "\n);"@
}

/// Renders `columns` as a `CREATE TABLE` statement for the table `table`.
pub fn render_create_table(table: &str, columns: &[ColumnSchema]) -> (sql: String)
    ensures
        sql@ == create_table_sql(table@, columns@),
{
    let ghost lines = column_definitions(columns@);
    let mut sql = String::new();
    sql.append("CREATE TABLE ");
    sql.append(table);
    sql.append(" (\n");
    let ghost head = sql@;
    let mut i: usize = 0;
    while i < columns.len()
        invariant
            i <= columns@.len(),
            lines == column_definitions(columns@),
            head == "CREATE TABLE "@ + table@ + " (\n"@,
            sql@ == head + join_with(lines.take(i as int), ",\n"@),
        decreases columns@.len() - i,
    {
        let col = &columns[i];
        let ghost before = sql@;
        if i > 0 {
            sql.append(",\n");
        }
        sql.append("    ");
        let name = quote_identifier(col.name.as_str());
        sql.append(name.as_str());
        sql.append(" ");
        sql.append(col.ty.sql_name());
        if !col.nullable {
            sql.append(" NOT NULL");
        }
        proof {
            let t = lines.take(i + 1);
            assert(t.drop_last() =~= lines.take(i as int));
            assert(t.last() == column_definition(columns@[i as int]));
            if i == 0 {
                assert(t.len() == 1);
                assert(sql@ =~= head + join_with(t, ",\n"@));
            } else {
                assert(sql@ =~= head + join_with(t, ",\n"@));
            }
        }
        i = i + 1;
    }
    assert(lines.take(columns@.len() as int) =~= lines);
    sql.append("\n);");
    assert(sql@ =~= create_table_sql(table@, columns@));
    sql
}


// ---------------------------------------------------------------------------
// Laws of identifier quoting
// ---------------------------------------------------------------------------

proof fn lemma_escape_quotes_shape(s: Seq<char>)
    ensures
        escape_quotes(s).len() >= s.len(),
        s.len() > 0 ==> escape_quotes(s).last() == s.last(),
        s.len() > 0 && s.last() == '"' ==> escape_quotes(s).len() >= 2 && escape_quotes(s)[escape_quotes(s).len() - 2] == '"',
    decreases s.len(),
{
    if s.len() > 0 {
        lemma_escape_quotes_shape(s.drop_last());
    }
}

/// Doubling quotes loses nothing: different names escape differently.
proof fn lemma_escape_quotes_injective(a: Seq<char>, b: Seq<char>)
    requires
        escape_quotes(a) == escape_quotes(b),
    ensures
        a == b,
    decreases a.len(),
{
    lemma_escape_quotes_shape(a);
    lemma_escape_quotes_shape(b);
    if a.len() == 0 || b.len() == 0 {
        assert(a.len() == 0 && b.len() == 0);
        assert(a =~= b);
    } else {
        let ea = escape_quotes(a);
        assert(a.last() == b.last());
        let tail: Seq<char> = if a.last() == '"' { seq!['"', '"'] } else { seq![a.last()] };
        assert(ea == escape_quotes(a.drop_last()) + tail);
        assert(ea == escape_quotes(b.drop_last()) + tail);
        assert(escape_quotes(a.drop_last()) =~= ea.take(ea.len() - tail.len()));
        assert(escape_quotes(b.drop_last()) =~= ea.take(ea.len() - tail.len()));
        lemma_escape_quotes_injective(a.drop_last(), b.drop_last());
        assert(a =~= a.drop_last().push(a.last()));
        assert(b =~= b.drop_last().push(b.last()));
    }
}

/// Distinct column names never collide in the rendered SQL: quoting is
/// injective, so the identifier determines the name it came from.
pub proof fn lemma_quoted_identifier_injective(a: Seq<char>, b: Seq<char>)
    requires
        quoted_identifier(a) == quoted_identifier(b),
    ensures
        a == b,
{
    let qa = quoted_identifier(a);
    if is_plain_identifier(a) && !is_plain_identifier(b) {
        assert(qa[0] == a[0]);
        assert(is_ascii_alphanumeric(a[0]) || a[0] == '_');
    } else if !is_plain_identifier(a) && is_plain_identifier(b) {
        assert(qa[0] == b[0]);
        assert(is_ascii_alphanumeric(b[0]) || b[0] == '_');
    } else if !is_plain_identifier(a) && !is_plain_identifier(b) {
        assert(escape_quotes(a) =~= qa.subrange(1, qa.len() - 1));
        assert(escape_quotes(b) =~= qa.subrange(1, qa.len() - 1));
        lemma_escape_quotes_injective(a, b);
    }
}


/// `s` with every doubled `"` made single again.
pub open spec fn unescape_quotes(s: Seq<char>) -> Seq<char>
    decreases s.len(),
{
    if s.len() == 0 {
        Seq::empty()
    } else if s.len() >= 2 && s.last() == '"' && s[s.len() - 2] == '"' {
        unescape_quotes(s.take(s.len() - 2)).push('"')
    } else {
        unescape_quotes(s.drop_last()).push(s.last())
    }
}

/// How SQL reads an identifier back: a quoted one loses its quotes and has
/// its doubled inner quotes made single; a plain one is taken as it is.
pub open spec fn unquote_identifier(q: Seq<char>) -> Seq<char> {
    if q.len() >= 2 && q[0] == '"' {
        unescape_quotes(q.subrange(1, q.len() - 1))
    } else {
        q
    }
}

proof fn lemma_unescape_escape(s: Seq<char>)
    ensures
        unescape_quotes(escape_quotes(s)) == s,
    decreases s.len(),
{
    if s.len() > 0 {
        lemma_unescape_escape(s.drop_last());
        let e = escape_quotes(s);
        let e0 = escape_quotes(s.drop_last());
        if s.last() == '"' {
            assert(e == e0 + seq!['"', '"']);
            assert(e.take(e.len() - 2) =~= e0);
        } else {
            assert(e == e0 + seq![s.last()]);
            assert(e.drop_last() =~= e0);
        }
        assert(s =~= s.drop_last().push(s.last()));
    }
}

/// Reading a quoted identifier back gives the name it was made from.
pub proof fn lemma_unquote_quoted_identifier(name: Seq<char>)
    ensures
        unquote_identifier(quoted_identifier(name)) == name,
{
    if is_plain_identifier(name) {
        assert(is_ascii_alphanumeric(name[0]) || name[0] == '_');
    } else {
        let q = quoted_identifier(name);
        assert(q.subrange(1, q.len() - 1) =~= escape_quotes(name));
        lemma_unescape_escape(name);
    }
}


/// A name is left unquoted exactly when it is not empty, is made only of
/// ASCII letters, digits and `_`, and does not start with a digit; any other
/// name (one holding `-`, a space or `#`, say) comes out longer, between
/// double quotes.
pub proof fn lemma_only_plain_names_stay_unquoted(s: Seq<char>)
    ensures
        quoted_identifier(s) == s <==> (s.len() > 0 && !('0' <= s[0] && s[0] <= '9') && forall|i: int|
            0 <= i < s.len() ==> ('a' <= #[trigger] s[i] && s[i] <= 'z') || ('A' <= s[i] && s[i]
                <= 'Z') || ('0' <= s[i] && s[i] <= '9') || s[i] == '_'),
        quoted_identifier(s) != s ==> {
            let q = quoted_identifier(s);
            &&& q.len() >= s.len() + 2
            &&& q[0] == '"'
            &&& q[q.len() - 1] == '"'
        },
{
    lemma_escape_quotes_shape(s);
}

/// The statement's column lines are separated by `,` and a newline, not
/// terminated by it: with no column the parentheses hold an empty line,
/// with one column they hold that column's line alone, and each further
/// column adds `,`, a newline and its line before the closing `\n);`.
pub proof fn lemma_create_table_separates_column_lines(
    table: Seq<char>,
    cols: Seq<ColumnSchema>,
    c: ColumnSchema,
)
    ensures
        create_table_sql(table, Seq::empty()) == "CREATE TABLE "@ + table + " (\n"@ + "\n);"@,
        create_table_sql(table, seq![c]) == "CREATE TABLE "@ + table + " (\n"@ + column_definition(c)
            + "\n);"@,
        cols.len() > 0 ==> create_table_sql(table, cols.push(c)) == create_table_sql(
            table,
            cols,
        ).subrange(0, create_table_sql(table, cols).len() - 3) + ",\n"@ + column_definition(c)
            + "\n);"@,
{
    reveal_strlit("\n);");
    let e: Seq<ColumnSchema> = Seq::empty();
    assert(column_definitions(e) =~= Seq::<Seq<char>>::empty());
    assert(column_definitions(seq![c]) =~= seq![column_definition(c)]);
    if cols.len() > 0 {
        let l = column_definitions(cols.push(c));
        assert(l.drop_last() =~= column_definitions(cols));
        assert(l.last() == column_definition(c));
        let head = "CREATE TABLE "@ + table + " (\n"@ + join_with(column_definitions(cols), ",\n"@);
        let whole = create_table_sql(table, cols);
        assert(whole == head + "\n);"@);
        assert(whole.subrange(0, whole.len() - 3) =~= head);
    }
}


/// A column's line differs between its nullable and its NOT NULL form only
/// by a trailing ` NOT NULL`, and it starts with four spaces, the quoted
/// name and a space.
pub proof fn lemma_not_null_only_for_non_nullable_columns(c: ColumnSchema)
    ensures
        column_definition(ColumnSchema { nullable: false, ..c }) == column_definition(
            ColumnSchema { nullable: true, ..c },
        ) + " NOT NULL"@,
        column_definition(c).subrange(0, (4 + quoted_identifier(c.name@).len() + 1) as int) == "    "@
            + quoted_identifier(c.name@) + " "@,
{
    reveal_strlit("    ");
    reveal_strlit(" ");
    let n = ColumnSchema { nullable: false, ..c };
    let y = ColumnSchema { nullable: true, ..c };
    assert(n.name == c.name && y.name == c.name && n.ty == c.ty && y.ty == c.ty);
    let head = "    "@ + quoted_identifier(c.name@) + " "@;
    assert(column_definition(y) =~= head + sql_type_name(c.ty));
    assert(column_definition(c).subrange(0, head.len() as int) =~= head);
}

} // verus!
