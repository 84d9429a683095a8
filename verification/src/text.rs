//! Character-level recognizers for the literals a CSV cell may hold.
//!
//! Each recognizer works on the characters of a cell and is specified by a
//! spec function over `Seq<char>` that states the accepted text directly.

use vstd::prelude::*;

verus! {

broadcast use vstd::string::group_string_axioms;

// ---------------------------------------------------------------------------
// Specifications
// ---------------------------------------------------------------------------

pub open spec fn is_digit(c: char) -> bool {
    '0' <= c && c <= '9'
}

pub open spec fn all_digits(s: Seq<char>) -> bool {
    forall|i: int| 0 <= i < s.len() ==> is_digit(#[trigger] s[i])
}

pub open spec fn digit_value(c: char) -> int {
    c as int - '0' as int
}

/// The decimal value of a run of digits (most significant first).
pub open spec fn digits_value(s: Seq<char>) -> int
    decreases s.len(),
{
    if s.len() == 0 {
        0
    } else {
        digits_value(s.drop_last()) * 10 + digit_value(s.last())
    }
}

pub open spec fn is_sign(c: char) -> bool {
    c == '+' || c == '-'
}

/// The value of an optionally signed run of at least one ASCII digit, the
/// text that std's integer parsers accept apart from their range check.
pub open spec fn integer_literal(s: Seq<char>) -> Option<int> {
    if s.len() > 0 && is_sign(s[0]) {
        let d = s.skip(1);
        if d.len() > 0 && all_digits(d) {
            Some(if s[0] == '-' { -digits_value(d) } else { digits_value(d) })
        } else {
            None
        }
    } else if s.len() > 0 && all_digits(s) {
        Some(digits_value(s))
    } else {
        None
    }
}

/// What `str::parse::<i64>` returns on `s`.
pub open spec fn parse_i64(s: Seq<char>) -> Option<int> {
    match integer_literal(s) {
        Some(v) => if i64::MIN <= v <= i64::MAX { Some(v) } else { None },
        None => None,
    }
}

/// The code of `c` with an ASCII upper-case letter mapped to lower case.
pub open spec fn ascii_lower(c: char) -> int {
    let x = c as u32;
    if 65 <= x && x <= 90 {
        x + 32
    } else {
        x as int
    }
}

/// `s` equals the lower-case word `w` up to ASCII case.
pub open spec fn eq_ignore_ascii_case(s: Seq<char>, w: Seq<char>) -> bool {
    &&& s.len() == w.len()
    &&& forall|i: int| 0 <= i < s.len() ==> ascii_lower(#[trigger] s[i]) == w[i] as u32
}

pub open spec fn word_true() -> Seq<char> {
    seq!['t', 'r', 'u', 'e']
}

pub open spec fn word_false() -> Seq<char> {
    seq!['f', 'a', 'l', 's', 'e']
}

/// `true` or `false`, in any ASCII case.
pub open spec fn is_bool_literal(s: Seq<char>) -> bool {
    eq_ignore_ascii_case(s, word_true()) || eq_ignore_ascii_case(s, word_false())
}

/// A number written with a leading zero, such as `00123` or `-007`: an
/// optional `-`, then at least two ASCII digits of which the first is `0`.
pub open spec fn has_leading_zero_padding(s: Seq<char>) -> bool {
    let d = if s.len() > 0 && s[0] == '-' { s.skip(1) } else { s };
    d.len() > 1 && d[0] == '0' && all_digits(d)
}

/// `Digit+ | Digit+ '.' Digit* | Digit* '.' Digit+`
pub open spec fn is_mantissa(s: Seq<char>) -> bool {
    ||| (s.len() > 0 && all_digits(s))
    ||| exists|p: int|
        0 <= p < s.len() && #[trigger] s[p] == '.' && s.len() > 1 && all_digits(s.take(p))
            && all_digits(s.skip(p + 1))
}

pub open spec fn is_exponent_marker(c: char) -> bool {
    c == 'e' || c == 'E'
}

/// `Sign? Digit+`
pub open spec fn is_signed_digits(s: Seq<char>) -> bool {
    ||| (s.len() > 0 && all_digits(s))
    ||| (s.len() > 1 && is_sign(s[0]) && all_digits(s.skip(1)))
}

/// `Mantissa ('e' Sign? Digit+)?`, the exponent marker in either case.
pub open spec fn is_decimal_number(s: Seq<char>) -> bool {
    ||| is_mantissa(s)
    ||| exists|k: int|
        0 <= k < s.len() && is_exponent_marker(#[trigger] s[k]) && is_mantissa(s.take(k))
            && is_signed_digits(s.skip(k + 1))
}

/// A decimal numeral: an optional sign, then a `Number` of the grammar that
/// std documents for `str::parse::<f64>`. The words `inf`, `infinity` and
/// `nan`, which that parser also takes, are no numerals and are left out.
pub open spec fn is_signed_decimal(s: Seq<char>) -> bool {
    let body = if s.len() > 0 && is_sign(s[0]) { s.skip(1) } else { s };
    is_decimal_number(body)
}

/// A strict `YYYY-MM-DD` date: ASCII digits in the shape `dddd-dd-dd`, with
/// a month in `1..=12` and a day in `1..=31`.
pub open spec fn is_iso_date(s: Seq<char>) -> bool {
    &&& s.len() == 10
    &&& s[4] == '-'
    &&& s[7] == '-'
    &&& all_digits(s.subrange(0, 4))
    &&& all_digits(s.subrange(5, 7))
    &&& all_digits(s.subrange(8, 10))
    &&& 1 <= digits_value(s.subrange(5, 7)) <= 12
    &&& 1 <= digits_value(s.subrange(8, 10)) <= 31
}

// ---------------------------------------------------------------------------
// Lemmas
// ---------------------------------------------------------------------------

pub proof fn lemma_digits_value_nonneg(s: Seq<char>)
    requires
        all_digits(s),
    ensures
        digits_value(s) >= 0,
    decreases s.len(),
{
    if s.len() > 0 {
        assert(all_digits(s.drop_last()));
        lemma_digits_value_nonneg(s.drop_last());
    }
}

// ---------------------------------------------------------------------------
// Executable recognizers
// ---------------------------------------------------------------------------

/// The characters of `s`, in order.
pub fn chars_of(s: &str) -> (v: Vec<char>)
    ensures
        v@ == s@,
{
    let mut v: Vec<char> = Vec::new();
    for c in it: s.chars()
        invariant
            v@ == it.seq().take(it.index() as int),
            it.seq() == s@,
    {
        v.push(c);
    }
    v
}

fn is_digit_char(c: char) -> (b: bool)
    ensures
        b == is_digit(c),
{
    '0' <= c && c <= '9'
}

/// Whether `s[from..to]` is made of ASCII digits only.
fn all_digits_in(s: &Vec<char>, from: usize, to: usize) -> (b: bool)
    requires
        from <= to <= s@.len(),
    ensures
        b == all_digits(s@.subrange(from as int, to as int)),
{
    let mut i = from;
    while i < to
        invariant
            from <= i <= to <= s@.len(),
            all_digits(s@.subrange(from as int, i as int)),
        decreases to - i,
    {
        if !is_digit_char(s[i]) {
            assert(s@.subrange(from as int, to as int)[i - from] == s@[i as int]);
            return false;
        }
        assert(s@.subrange(from as int, i + 1) =~= s@.subrange(from as int, i as int).push(s@[i as int]));
        i = i + 1;
    }
    true
}

/// The largest magnitude any signed 64-bit integer can have.
pub open spec fn magnitude_limit() -> int {
    0x8000_0000_0000_0000
}

/// The value of the digits `s[from..to]`, exact up to `magnitude_limit()`,
/// and `magnitude_limit() + 1` beyond it.
fn digits_value_in(s: &Vec<char>, from: usize, to: usize) -> (v: u128)
    requires
        from <= to <= s@.len(),
        all_digits(s@.subrange(from as int, to as int)),
    ensures
        digits_value(s@.subrange(from as int, to as int)) <= magnitude_limit() ==> v
            == digits_value(s@.subrange(from as int, to as int)),
        digits_value(s@.subrange(from as int, to as int)) > magnitude_limit() ==> v
            == magnitude_limit() + 1,
{
    let limit: u128 = 0x8000_0000_0000_0000;
    let mut acc: u128 = 0;
    let mut i = from;
    while i < to
        invariant
            from <= i <= to <= s@.len(),
            limit == magnitude_limit(),
            all_digits(s@.subrange(from as int, to as int)),
            digits_value(s@.subrange(from as int, i as int)) >= 0,
            digits_value(s@.subrange(from as int, i as int)) <= magnitude_limit() ==> acc
                == digits_value(s@.subrange(from as int, i as int)),
            digits_value(s@.subrange(from as int, i as int)) > magnitude_limit() ==> acc == limit
                + 1,
        decreases to - i,
    {
        let ghost prev = s@.subrange(from as int, i as int);
        let ghost next = s@.subrange(from as int, i + 1);
        assert(next.drop_last() =~= prev);
        assert(next.last() == s@[i as int]);
        assert(s@.subrange(from as int, to as int)[i - from] == s@[i as int]);
        let c = s[i];
        let d: u128 = (c as u32 - '0' as u32) as u128;
        if acc <= limit {
            let n = acc * 10 + d;
            if n > limit {
                acc = limit + 1;
            } else {
                acc = n;
            }
        }
        i = i + 1;
    }
    acc
}


/// What `s.parse::<i64>()` gives, on the characters of `s`.
pub fn parse_i64_chars(s: &Vec<char>) -> (r: Option<i64>)
    ensures
        match r {
            Some(v) => parse_i64(s@) == Some(v as int),
            None => parse_i64(s@) is None,
        },
{
    let n = s.len();
    if n == 0 {
        return None;
    }
    let first = s[0];
    let neg = first == '-';
    let start: usize = if first == '+' || first == '-' { 1 } else { 0 };
    assert(s@.subrange(0, n as int) =~= s@);
    assert(s@.subrange(1, n as int) =~= s@.skip(1));
    if start == n || !all_digits_in(s, start, n) {
        return None;
    }
    let m = digits_value_in(s, start, n);
    proof {
        lemma_digits_value_nonneg(s@.subrange(start as int, n as int));
    }
    if neg {
        let mi: i128 = m as i128;
        if mi <= 0x8000_0000_0000_0000 {
            Some((0 - mi) as i64)
        } else {
            None
        }
    } else {
        if m <= 0x7fff_ffff_ffff_ffff {
            Some(m as i64)
        } else {
            None
        }
    }
}

/// Whether `s[from..to]` equals the lower-case word `w` up to ASCII case.
fn eq_ignore_ascii_case_in(s: &Vec<char>, from: usize, to: usize, w: &[char]) -> (b: bool)
    requires
        from <= to <= s@.len(),
    ensures
        b == eq_ignore_ascii_case(s@.subrange(from as int, to as int), w@),
{
    let ghost t = s@.subrange(from as int, to as int);
    if to - from != w.len() {
        return false;
    }
    let mut i: usize = 0;
    while i < w.len()
        invariant
            from <= to <= s@.len(),
            to - from == w@.len(),
            t == s@.subrange(from as int, to as int),
            0 <= i <= w@.len(),
            forall|j: int| 0 <= j < i ==> ascii_lower(#[trigger] t[j]) == w@[j] as u32,
        decreases w@.len() - i,
    {
        let x: u32 = s[from + i] as u32;
        let lx: u32 = if 65 <= x && x <= 90 { x + 32 } else { x };
        assert(t[i as int] == s@[from + i]);
        if lx != w[i] as u32 {
            return false;
        }
        i = i + 1;
    }
    true
}

/// The first index in `from..to` holding `a` or `b`, or `to` when none does.
fn first_index_of(s: &Vec<char>, from: usize, to: usize, a: char, b: char) -> (k: usize)
    requires
        from <= to <= s@.len(),
    ensures
        from <= k <= to,
        forall|i: int| from <= i < k ==> s@[i] != a && s@[i] != b,
        k < to ==> (s@[k as int] == a || s@[k as int] == b),
{
    let mut k = from;
    while k < to
        invariant
            from <= k <= to <= s@.len(),
            forall|i: int| from <= i < k ==> s@[i] != a && s@[i] != b,
        decreases to - k,
    {
        let c = s[k];
        if c == a || c == b {
            return k;
        }
        k = k + 1;
    }
    k
}


proof fn lemma_mantissa_chars(t: Seq<char>)
    requires
        is_mantissa(t),
    ensures
        forall|i: int| 0 <= i < t.len() ==> is_digit(#[trigger] t[i]) || t[i] == '.',
{
    if !(t.len() > 0 && all_digits(t)) {
        let p = choose|p: int|
            0 <= p < t.len() && #[trigger] t[p] == '.' && t.len() > 1 && all_digits(t.take(p))
                && all_digits(t.skip(p + 1));
        assert forall|i: int| 0 <= i < t.len() implies is_digit(#[trigger] t[i]) || t[i] == '.' by {
            if i < p {
                assert(t.take(p)[i] == t[i]);
            } else if i > p {
                assert(t.skip(p + 1)[i - p - 1] == t[i]);
            }
        }
    }
}

/// Whether `s[from..to]` is a mantissa.
fn is_mantissa_in(s: &Vec<char>, from: usize, to: usize) -> (b: bool)
    requires
        from <= to <= s@.len(),
    ensures
        b == is_mantissa(s@.subrange(from as int, to as int)),
{
    let ghost t = s@.subrange(from as int, to as int);
    let p = first_index_of(s, from, to, '.', '.');
    if p == to {
        let r = from < to && all_digits_in(s, from, to);
        proof {
            if !r {
                assert forall|q: int| 0 <= q < t.len() implies #[trigger] t[q] != '.' by {
                    assert(t[q] == s@[from + q]);
                }
            }
        }
        return r;
    }
    let ghost q = p - from;
    assert(t[q] == s@[p as int]);
    assert(t.take(q) =~= s@.subrange(from as int, p as int));
    assert(t.skip(q + 1) =~= s@.subrange(p + 1, to as int));
    let r = to - from > 1 && all_digits_in(s, from, p) && all_digits_in(s, p + 1, to);
    proof {
        assert(!is_digit(t[q]));
        if !r {
            assert forall|q2: int|
                0 <= q2 < t.len() && #[trigger] t[q2] == '.' && t.len() > 1 implies !(all_digits(
                t.take(q2),
            ) && all_digits(t.skip(q2 + 1))) by {
                assert(t[q2] == s@[from + q2]);
                if q2 > q {
                    assert(t.take(q2)[q] == t[q]);
                }
            }
        }
    }
    r
}

/// Whether `s[from..to]` is an optional sign followed by at least one digit.
fn is_signed_digits_in(s: &Vec<char>, from: usize, to: usize) -> (b: bool)
    requires
        from <= to <= s@.len(),
    ensures
        b == is_signed_digits(s@.subrange(from as int, to as int)),
{
    let ghost t = s@.subrange(from as int, to as int);
    if from == to {
        return false;
    }
    let c = s[from];
    assert(t[0] == c);
    assert(t.skip(1) =~= s@.subrange(from + 1, to as int));
    if c == '+' || c == '-' {
        to - from > 1 && all_digits_in(s, from + 1, to)
    } else {
        all_digits_in(s, from, to)
    }
}

/// Whether `s[from..to]` is a decimal number with an optional exponent.
fn is_decimal_number_in(s: &Vec<char>, from: usize, to: usize) -> (b: bool)
    requires
        from <= to <= s@.len(),
    ensures
        b == is_decimal_number(s@.subrange(from as int, to as int)),
{
    let ghost t = s@.subrange(from as int, to as int);
    let k = first_index_of(s, from, to, 'e', 'E');
    if k == to {
        let r = is_mantissa_in(s, from, to);
        proof {
            assert forall|k2: int| 0 <= k2 < t.len() implies !is_exponent_marker(#[trigger] t[k2]) by {
                assert(t[k2] == s@[from + k2]);
            }
        }
        return r;
    }
    let ghost q = k - from;
    assert(t[q] == s@[k as int]);
    assert(t.take(q) =~= s@.subrange(from as int, k as int));
    assert(t.skip(q + 1) =~= s@.subrange(k + 1, to as int));
    let r = is_mantissa_in(s, from, k) && is_signed_digits_in(s, k + 1, to);
    proof {
        if is_mantissa(t) {
            lemma_mantissa_chars(t);
            assert(is_digit(t[q]) || t[q] == '.');
        }
        if !r {
            assert forall|k2: int|
                0 <= k2 < t.len() && is_exponent_marker(#[trigger] t[k2]) implies !(is_mantissa(
                t.take(k2),
            ) && is_signed_digits(t.skip(k2 + 1))) by {
                assert(t[k2] == s@[from + k2]);
                if k2 > q && is_mantissa(t.take(k2)) {
                    lemma_mantissa_chars(t.take(k2));
                    assert(t.take(k2)[q] == t[q]);
                }
            }
        }
    }
    r
}

/// Whether the characters `s` are a decimal numeral.
pub fn is_signed_decimal_chars(s: &Vec<char>) -> (b: bool)
    ensures
        b == is_signed_decimal(s@),
{
    let n = s.len();
    let start: usize = if n > 0 && (s[0] == '+' || s[0] == '-') { 1 } else { 0 };
    proof {
        if start == 1 {
            assert(s@.skip(1) =~= s@.subrange(1, n as int));
        } else {
            assert(s@ =~= s@.subrange(0, n as int));
        }
    }
    is_decimal_number_in(s, start, n)
}

/// Whether the characters `s` spell `true` or `false` in any ASCII case.
pub fn is_bool_literal_chars(s: &Vec<char>) -> (b: bool)
    ensures
        b == is_bool_literal(s@),
{
    let n = s.len();
    assert(s@ =~= s@.subrange(0, n as int));
    eq_ignore_ascii_case_in(s, 0, n, &['t', 'r', 'u', 'e'])
        || eq_ignore_ascii_case_in(s, 0, n, &['f', 'a', 'l', 's', 'e'])
}


/// Whether the characters `s` are a zero-padded number such as `00123`.
pub fn has_leading_zero_padding_chars(s: &Vec<char>) -> (b: bool)
    ensures
        b == has_leading_zero_padding(s@),
{
    let n = s.len();
    let start: usize = if n > 0 && s[0] == '-' { 1 } else { 0 };
    let ghost d = s@.subrange(start as int, n as int);
    proof {
        if start == 1 {
            assert(s@.skip(1) =~= d);
        } else {
            assert(s@ =~= d);
        }
    }
    if n - start > 1 && s[start] == '0' {
        assert(d[0] == s@[start as int]);
        all_digits_in(s, start, n)
    } else {
        assert(n - start > 1 ==> d[0] == s@[start as int]);
        false
    }
}

/// Whether the characters `s` are a strict `YYYY-MM-DD` date.
pub fn is_iso_date_chars(s: &Vec<char>) -> (b: bool)
    ensures
        b == is_iso_date(s@),
{
    if s.len() != 10 || s[4] != '-' || s[7] != '-' {
        return false;
    }
    if !(all_digits_in(s, 0, 4) && all_digits_in(s, 5, 7) && all_digits_in(s, 8, 10)) {
        return false;
    }
    let m = digits_value_in(s, 5, 7);
    let d = digits_value_in(s, 8, 10);
    1 <= m && m <= 12 && 1 <= d && d <= 31
}


// ---------------------------------------------------------------------------
// Laws of the recognizers
// ---------------------------------------------------------------------------

/// `true` and `false`, in any case, are no integers.
pub proof fn lemma_bool_literal_is_no_integer(s: Seq<char>)
    requires
        is_bool_literal(s),
    ensures
        integer_literal(s) is None,
{
    assert(!is_digit(s[0]) && !is_sign(s[0]));
}

/// Digits, a `.`, and digits, with at least one digit in all, are a
/// numeral however many digits stand on either side of the point, with or
/// without a leading sign; so is a run of digits on its own, and either
/// followed by `e` or `E` and a run of digits.
pub proof fn lemma_digit_runs_are_numerals(a: Seq<char>, b: Seq<char>, x: Seq<char>, sign: char)
    requires
        all_digits(a),
        all_digits(b),
        a.len() + b.len() > 0,
        all_digits(x),
        x.len() > 0,
        sign == '+' || sign == '-',
    ensures
        is_signed_decimal(a + seq!['.'] + b),
        is_signed_decimal(seq![sign] + a + seq!['.'] + b),
        is_signed_decimal(x),
        is_signed_decimal(seq![sign] + x),
        is_signed_decimal(x + seq!['e'] + x),
        is_signed_decimal(a + seq!['.'] + b + seq!['E'] + seq![sign] + x),
{
    let m = a + seq!['.'] + b;
    let p = a.len() as int;
    assert(m[p] == '.');
    assert(m.take(p) =~= a);
    assert(m.skip(p + 1) =~= b);
    assert(is_mantissa(m));
    if a.len() > 0 {
        assert(!is_sign(m[0]));
    }
    if a.len() == 0 {
        assert(!is_sign(m[0]));
    }
    assert((seq![sign] + m).skip(1) =~= m);
    assert(is_decimal_number(m));
    assert(x.len() > 0 && all_digits(x) ==> !is_sign(x[0]));
    assert(is_mantissa(x));
    assert((seq![sign] + x).skip(1) =~= x);
    let xe = x + seq!['e'] + x;
    let q = x.len() as int;
    assert(xe[q] == 'e');
    assert(xe.take(q) =~= x);
    assert(xe.skip(q + 1) =~= x);
    assert(is_signed_digits(x));
    assert(is_decimal_number(xe));
    assert(!is_sign(xe[0]));
    let me = m + seq!['E'] + seq![sign] + x;
    let r = m.len() as int;
    assert(me[r] == 'E');
    assert(me.take(r) =~= m);
    assert(me.skip(r + 1) =~= seq![sign] + x);
    assert((seq![sign] + x).skip(1) =~= x);
    assert(is_signed_digits(seq![sign] + x));
    assert(is_decimal_number(me));
    assert(me[0] == m[0]);
}

/// A value holding a character that is no digit, sign, `.`, `e` or `E`
/// is no numeral.
pub proof fn lemma_numerals_use_numeral_characters(s: Seq<char>, k: int)
    requires
        0 <= k < s.len(),
        !is_digit(s[k]),
        !is_sign(s[k]),
        s[k] != '.',
        !is_exponent_marker(s[k]),
    ensures
        !is_signed_decimal(s),
{
    let body = if s.len() > 0 && is_sign(s[0]) { s.skip(1) } else { s };
    let kb = if s.len() > 0 && is_sign(s[0]) { k - 1 } else { k };
    assert(body[kb] == s[k]);
    if is_mantissa(body) {
        lemma_mantissa_chars(body);
    }
    if exists|j: int|
        0 <= j < body.len() && is_exponent_marker(#[trigger] body[j]) && is_mantissa(body.take(j))
            && is_signed_digits(body.skip(j + 1)) {
        let j = choose|j: int|
            0 <= j < body.len() && is_exponent_marker(#[trigger] body[j]) && is_mantissa(
                body.take(j),
            ) && is_signed_digits(body.skip(j + 1));
        if kb < j {
            lemma_mantissa_chars(body.take(j));
            assert(body.take(j)[kb] == body[kb]);
        } else if kb > j {
            let t = body.skip(j + 1);
            assert(t[kb - j - 1] == body[kb]);
            if t.len() > 0 && all_digits(t) {
                assert(is_digit(t[kb - j - 1]));
            } else {
                assert(t.skip(1)[kb - j - 2] == t[kb - j - 1]);
            }
        }
    }
}


/// A run of digits reads as its decimal value, and with a `-` in front as
/// the negated value, as long as the value fits in 64 bits; a sign with
/// nothing after it, or nothing at all, is no integer.
pub proof fn lemma_integer_literals(d: Seq<char>)
    requires
        d.len() > 0,
        all_digits(d),
    ensures
        digits_value(d) <= i64::MAX ==> parse_i64(d) == Some(digits_value(d)),
        digits_value(d) > i64::MAX ==> parse_i64(d) is None,
        digits_value(d) <= i64::MAX + 1 ==> parse_i64(seq!['-'] + d) == Some(-digits_value(d)),
        digits_value(d) > i64::MAX + 1 ==> parse_i64(seq!['-'] + d) is None,
        parse_i64(seq!['+'] + d) == parse_i64(d),
        parse_i64(Seq::empty()) is None,
        parse_i64(seq!['-']) is None,
        parse_i64(seq!['+']) is None,
{
    lemma_digits_value_nonneg(d);
    assert(!is_sign(d[0]));
    assert((seq!['-'] + d).skip(1) =~= d);
    assert((seq!['+'] + d).skip(1) =~= d);
    assert(seq!['-'].skip(1).len() == 0);
    assert(seq!['+'].skip(1).len() == 0);
}

/// A date is no numeral: the `-` inside it fits no decimal number.
pub proof fn lemma_date_is_no_numeral(s: Seq<char>)
    requires
        is_iso_date(s),
    ensures
        !is_signed_decimal(s),
        integer_literal(s) is None,
        forall|i: int| 0 <= i < s.len() ==> is_digit(#[trigger] s[i]) || s[i] == '-',
{
    assert(s.subrange(0, 4)[0] == s[0]);
    assert(is_digit(s[0]));
    assert(!is_sign(s[0]));
    assert forall|i: int| 0 <= i < s.len() && i != 4 && i != 7 implies is_digit(#[trigger] s[i]) by {
        if i < 4 {
            assert(s.subrange(0, 4)[i] == s[i]);
        } else if i < 7 {
            assert(s.subrange(5, 7)[i - 5] == s[i]);
        } else {
            assert(s.subrange(8, 10)[i - 8] == s[i]);
        }
    }
    if is_mantissa(s) {
        lemma_mantissa_chars(s);
        assert(s[4] == '-');
    }
    if exists|j: int|
        0 <= j < s.len() && is_exponent_marker(#[trigger] s[j]) && is_mantissa(s.take(j))
            && is_signed_digits(s.skip(j + 1)) {
        let j = choose|j: int|
            0 <= j < s.len() && is_exponent_marker(#[trigger] s[j]) && is_mantissa(s.take(j))
                && is_signed_digits(s.skip(j + 1));
        assert(j == 4 || j == 7 || is_digit(s[j]));
    }
    assert(!all_digits(s)) by {
        assert(!is_digit(s[4]));
    }
}

/// Four digits, `-`, two digits, `-`, two digits make a date exactly when
/// the month is in `1..=12` and the day in `1..=31`.
pub proof fn lemma_dates_are_digit_fields(y: Seq<char>, m: Seq<char>, d: Seq<char>)
    requires
        y.len() == 4,
        m.len() == 2,
        d.len() == 2,
        all_digits(y),
        all_digits(m),
        all_digits(d),
    ensures
        is_iso_date(y + seq!['-'] + m + seq!['-'] + d) <==> (1 <= digits_value(m) <= 12 && 1
            <= digits_value(d) <= 31),
{
    let s = y + seq!['-'] + m + seq!['-'] + d;
    assert(s.subrange(0, 4) =~= y);
    assert(s.subrange(5, 7) =~= m);
    assert(s.subrange(8, 10) =~= d);
}


/// `true` and `false` start with a letter, in either case.
pub proof fn lemma_bool_literal_starts_with_a_letter(s: Seq<char>)
    requires
        is_bool_literal(s),
    ensures
        s.len() > 0,
        s[0] == 't' || s[0] == 'T' || s[0] == 'f' || s[0] == 'F',
        s.len() == 4 || s.len() == 5,
        !is_signed_decimal(s),
        integer_literal(s) is None,
        !is_iso_date(s),
        !has_leading_zero_padding(s),
{
    assert(word_true()[0] == 't');
    assert(word_false()[0] == 'f');
    let x = s[0] as u32;
    assert(x == 116 || x == 84 || x == 102 || x == 70);
    vstd::utf8::char_u32_cast(s[0], x);
    assert(116u32 as char == 't' && 84u32 as char == 'T' && 102u32 as char == 'f' && 70u32 as char == 'F');
    lemma_numerals_use_numeral_characters(s, 0);
    lemma_bool_literal_is_no_integer(s);
}


/// Zero padding is a `0` followed by more digits, with or without a `-` in
/// front; a lone `0`, or digits that start with another digit, are not
/// padded.
pub proof fn lemma_zero_padding(d: Seq<char>)
    requires
        d.len() > 0,
        all_digits(d),
    ensures
        d[0] == '0' && d.len() > 1 ==> has_leading_zero_padding(d) && has_leading_zero_padding(
            seq!['-'] + d,
        ),
        d[0] != '0' || d.len() == 1 ==> !has_leading_zero_padding(d) && !has_leading_zero_padding(
            seq!['-'] + d,
        ),
        !has_leading_zero_padding(seq!['+'] + d),
{
    assert((seq!['-'] + d).skip(1) =~= d);
    assert((seq!['+'] + d)[0] == '+');
}

} // verus!
