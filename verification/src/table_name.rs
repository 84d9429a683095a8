//! The default table name: the stem of the CSV file's path.

use vstd::prelude::*;

verus! {

broadcast use vstd::string::group_string_axioms;

/// A path that is one plain file name on every platform: not empty, not `.`
/// or `..`, and without the separators `/` and `\` or a drive's `:`.
pub open spec fn is_plain_file_name(p: Seq<char>) -> bool {
    &&& p.len() > 0
    &&& p != seq!['.']
    &&& p != seq!['.', '.']
    &&& forall|i: int| 0 <= i < p.len() ==> #[trigger] p[i] != '/' && p[i] != '\\' && p[i] != ':'
}

/// A path that has no file name on any platform: empty, `/`, `.` or `..`.
pub open spec fn has_no_file_name(p: Seq<char>) -> bool {
    ||| p.len() == 0
    ||| p == seq!['/']
    ||| p == seq!['.']
    ||| p == seq!['.', '.']
}

/// `s` is a contiguous run of the characters of `p`.
pub open spec fn is_run_of(s: Seq<char>, p: Seq<char>) -> bool {
    exists|i: int, j: int| 0 <= i <= j <= p.len() && s == p.subrange(i, j)
}

/// The index of the last `c` in `p`, or -1 when there is none.
pub open spec fn last_index_of(p: Seq<char>, c: char) -> int
    decreases p.len(),
{
    if p.len() == 0 {
        -1
    } else if p.last() == c {
        p.len() - 1
    } else {
        last_index_of(p.drop_last(), c)
    }
}

/// The index of the last `.` in `p`, or -1 when there is none.
pub open spec fn last_dot(p: Seq<char>) -> int {
    last_index_of(p, '.')
}

/// A path whose components are split by `/` alone on every platform: it
/// holds no `\` and does not begin with two `/` (a network-share prefix).
pub open spec fn is_slash_path(p: Seq<char>) -> bool {
    &&& forall|i: int| 0 <= i < p.len() ==> #[trigger] p[i] != '\\'
    &&& !(p.len() >= 2 && p[0] == '/' && p[1] == '/')
}

/// The part of `p` after its last `/`: the whole of `p` when it has none.
pub open spec fn final_name(p: Seq<char>) -> Seq<char> {
    p.skip(last_index_of(p, '/') + 1)
}

/// The stem of the file name `p`, as std documents it: the whole name when
/// it has no `.` or its only `.` leads it, otherwise the part before the
/// last `.`.
pub open spec fn stem_of_name(p: Seq<char>) -> Seq<char> {
    if last_dot(p) <= 0 {
        p
    } else {
        p.take(last_dot(p))
    }
}

/// `std::path::Path::file_stem` of `path`, as a `String`. Its contract states
/// what the documentation gives on every platform: a path with no file name
/// has no stem; a `/`-separated path whose part after the last `/` is a
/// plain file name has that name's `stem_of_name` as its stem; any stem is a
/// non-empty run of characters of `path`. For a path with `\`, a leading
/// `//`, or another kind of final part, the components depend on the
/// platform, so which run the stem is there is left unsaid.
#[verifier::external_body]
fn file_stem(path: &str) -> (stem: Option<String>)
    ensures
        stem matches Some(s) ==> s@.len() > 0 && is_run_of(s@, path@),
        has_no_file_name(path@) ==> stem is None,
        is_slash_path(path@) && is_plain_file_name(final_name(path@)) ==> stem is Some
            && stem.unwrap()@ == stem_of_name(final_name(path@)),
{
    let stem = std::path::Path::new(path).file_stem()?;
    Some(stem.to_str()?.to_string())
}

/// The table name for a file whose path has the stem `stem`: the stem
/// itself, or `data` when the path has none.
pub fn table_name_from_stem(stem: Option<String>) -> (name: String)
    ensures
        name@ == match stem {
            Some(s) => s@,
            None => "data"@,
        },
{
    match stem {
        Some(s) => s,
        None => String::from_str("data"),
    }
}

/// The table name to use when none is given: the stem of `path`'s file name
/// (`users.csv` and `/tmp/in/users.csv` give `users`), or `data` when the
/// path has no file name.
pub fn default_table_name(path: &str) -> (name: String)
    ensures
        is_slash_path(path@) && is_plain_file_name(final_name(path@)) ==> name@ == stem_of_name(
            final_name(path@),
        ),
        has_no_file_name(path@) ==> name@ == "data"@,
        name@ == "data"@ || (name@.len() > 0 && is_run_of(name@, path@)),
{
    table_name_from_stem(file_stem(path))
}

} // verus!
