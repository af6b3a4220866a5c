//! Character classes, scanning and number syntax over character sequences.
//!
//! Every scanner works on a `Vec<char>` and a start index and returns the
//! index where its run ends; the spec functions with the same names (without
//! the `skip_`/`find_` prefix) state that end over the sequence's view.
use vstd::prelude::*;

verus! {

broadcast use vstd::string::group_string_axioms;

// ---------------------------------------------------------------------------
// Character classes
// ---------------------------------------------------------------------------

/// Blank characters of the beatmap grammar: space, tab, carriage return, line feed.
pub open spec fn is_blank(c: char) -> bool {
    c == ' ' || c == '\t' || c == '\r' || c == '\n'
}

/// An ASCII decimal digit.
pub open spec fn is_digit(c: char) -> bool {
    '0' <= c && c <= '9'
}

/// An ASCII letter or digit.
pub open spec fn is_alnum(c: char) -> bool {
    ('a' <= c && c <= 'z') || ('A' <= c && c <= 'Z') || is_digit(c)
}

/// A character with the Unicode `White_Space` property (what `char::is_whitespace` tests).
pub open spec fn is_white_space(c: char) -> bool {
    ('\u{9}' <= c && c <= '\u{d}') || c == ' ' || c == '\u{85}' || c == '\u{a0}' || c == '\u{1680}'
        || ('\u{2000}' <= c && c <= '\u{200a}') || c == '\u{2028}' || c == '\u{2029}' || c
        == '\u{202f}' || c == '\u{205f}' || c == '\u{3000}'
}

/// A line break character.
pub open spec fn is_line_break(c: char) -> bool {
    c == '\r' || c == '\n'
}

pub fn blank(c: char) -> (r: bool)
    ensures
        r == is_blank(c),
{
    c == ' ' || c == '\t' || c == '\r' || c == '\n'
}

pub fn digit(c: char) -> (r: bool)
    ensures
        r == is_digit(c),
{
    '0' <= c && c <= '9'
}

pub fn alnum(c: char) -> (r: bool)
    ensures
        r == is_alnum(c),
{
    ('a' <= c && c <= 'z') || ('A' <= c && c <= 'Z') || digit(c)
}

pub fn white_space(c: char) -> (r: bool)
    ensures
        r == is_white_space(c),
{
    ('\u{9}' <= c && c <= '\u{d}') || c == ' ' || c == '\u{85}' || c == '\u{a0}' || c == '\u{1680}'
        || ('\u{2000}' <= c && c <= '\u{200a}') || c == '\u{2028}' || c == '\u{2029}' || c
        == '\u{202f}' || c == '\u{205f}' || c == '\u{3000}'
}


// ---------------------------------------------------------------------------
// Runs
// ---------------------------------------------------------------------------

/// End of the run of blank characters that starts at `i`.
pub open spec fn blank_end(t: Seq<char>, i: int) -> int
    decreases t.len() - i,
{
    if 0 <= i < t.len() && is_blank(t[i]) {
        blank_end(t, i + 1)
    } else {
        i
    }
}

/// End of the run of ASCII digits that starts at `i`.
pub open spec fn digit_end(t: Seq<char>, i: int) -> int
    decreases t.len() - i,
{
    if 0 <= i < t.len() && is_digit(t[i]) {
        digit_end(t, i + 1)
    } else {
        i
    }
}

/// End of the run of ASCII letters and digits that starts at `i`.
pub open spec fn alnum_end(t: Seq<char>, i: int) -> int
    decreases t.len() - i,
{
    if 0 <= i < t.len() && is_alnum(t[i]) {
        alnum_end(t, i + 1)
    } else {
        i
    }
}

/// Index of the first line break at or after `i`, or the length.
pub open spec fn line_break_at(t: Seq<char>, i: int) -> int
    decreases t.len() - i,
{
    if 0 <= i < t.len() && !is_line_break(t[i]) {
        line_break_at(t, i + 1)
    } else {
        i
    }
}

/// Index of the first `,`, `\n` or `\r` at or after `i`, or the length.
pub open spec fn field_end(t: Seq<char>, i: int) -> int
    decreases t.len() - i,
{
    if 0 <= i < t.len() && !(t[i] == ',' || is_line_break(t[i])) {
        field_end(t, i + 1)
    } else {
        i
    }
}

/// Index of the first `[` at or after `i`, or the length.
pub open spec fn bracket_at(t: Seq<char>, i: int) -> int
    decreases t.len() - i,
{
    if 0 <= i < t.len() && t[i] != '[' {
        bracket_at(t, i + 1)
    } else {
        i
    }
}

pub proof fn lemma_blank_end(t: Seq<char>, i: int)
    requires
        0 <= i <= t.len(),
    ensures
        i <= blank_end(t, i) <= t.len(),
        forall|k: int| i <= k < blank_end(t, i) ==> is_blank(#[trigger] t[k]),
        blank_end(t, i) < t.len() ==> !is_blank(t[blank_end(t, i)]),
    decreases t.len() - i,
{
    if i < t.len() && is_blank(t[i]) {
        lemma_blank_end(t, i + 1);
    }
}

pub proof fn lemma_digit_end(t: Seq<char>, i: int)
    requires
        0 <= i <= t.len(),
    ensures
        i <= digit_end(t, i) <= t.len(),
        forall|k: int| i <= k < digit_end(t, i) ==> is_digit(#[trigger] t[k]),
        digit_end(t, i) < t.len() ==> !is_digit(t[digit_end(t, i)]),
    decreases t.len() - i,
{
    if i < t.len() && is_digit(t[i]) {
        lemma_digit_end(t, i + 1);
    }
}

pub proof fn lemma_alnum_end(t: Seq<char>, i: int)
    requires
        0 <= i <= t.len(),
    ensures
        i <= alnum_end(t, i) <= t.len(),
        forall|k: int| i <= k < alnum_end(t, i) ==> is_alnum(#[trigger] t[k]),
        alnum_end(t, i) < t.len() ==> !is_alnum(t[alnum_end(t, i)]),
    decreases t.len() - i,
{
    if i < t.len() && is_alnum(t[i]) {
        lemma_alnum_end(t, i + 1);
    }
}

pub proof fn lemma_line_break_at(t: Seq<char>, i: int)
    requires
        0 <= i <= t.len(),
    ensures
        i <= line_break_at(t, i) <= t.len(),
        forall|k: int| i <= k < line_break_at(t, i) ==> !is_line_break(#[trigger] t[k]),
        line_break_at(t, i) < t.len() ==> is_line_break(t[line_break_at(t, i)]),
    decreases t.len() - i,
{
    if i < t.len() && !is_line_break(t[i]) {
        lemma_line_break_at(t, i + 1);
    }
}

pub proof fn lemma_field_end(t: Seq<char>, i: int)
    requires
        0 <= i <= t.len(),
    ensures
        i <= field_end(t, i) <= t.len(),
        forall|k: int|
            i <= k < field_end(t, i) ==> !(#[trigger] t[k] == ',' || is_line_break(t[k])),
        field_end(t, i) < t.len() ==> (t[field_end(t, i)] == ',' || is_line_break(
            t[field_end(t, i)],
        )),
    decreases t.len() - i,
{
    if i < t.len() && !(t[i] == ',' || is_line_break(t[i])) {
        lemma_field_end(t, i + 1);
    }
}

pub proof fn lemma_bracket_at(t: Seq<char>, i: int)
    requires
        0 <= i <= t.len(),
    ensures
        i <= bracket_at(t, i) <= t.len(),
        bracket_at(t, i) < t.len() ==> t[bracket_at(t, i)] == '[',
    decreases t.len() - i,
{
    if i < t.len() && t[i] != '[' {
        lemma_bracket_at(t, i + 1);
    }
}

pub fn skip_blanks(t: &Vec<char>, i: usize) -> (r: usize)
    requires
        i <= t.len(),
    ensures
        r == blank_end(t@, i as int),
        i <= r <= t.len(),
{
    let mut j = i;
    while j < t.len() && blank(t[j])
        invariant
            i <= j <= t.len(),
            blank_end(t@, i as int) == blank_end(t@, j as int),
        decreases t.len() - j,
    {
        j = j + 1;
    }
    j
}

pub fn skip_digits(t: &Vec<char>, i: usize) -> (r: usize)
    requires
        i <= t.len(),
    ensures
        r == digit_end(t@, i as int),
        i <= r <= t.len(),
{
    let mut j = i;
    while j < t.len() && digit(t[j])
        invariant
            i <= j <= t.len(),
            digit_end(t@, i as int) == digit_end(t@, j as int),
        decreases t.len() - j,
    {
        j = j + 1;
    }
    j
}

pub fn skip_alnums(t: &Vec<char>, i: usize) -> (r: usize)
    requires
        i <= t.len(),
    ensures
        r == alnum_end(t@, i as int),
        i <= r <= t.len(),
{
    let mut j = i;
    while j < t.len() && alnum(t[j])
        invariant
            i <= j <= t.len(),
            alnum_end(t@, i as int) == alnum_end(t@, j as int),
        decreases t.len() - j,
    {
        j = j + 1;
    }
    j
}

pub fn find_line_break(t: &Vec<char>, i: usize) -> (r: usize)
    requires
        i <= t.len(),
    ensures
        r == line_break_at(t@, i as int),
        i <= r <= t.len(),
{
    let mut j = i;
    while j < t.len() && !(t[j] == '\r' || t[j] == '\n')
        invariant
            i <= j <= t.len(),
            line_break_at(t@, i as int) == line_break_at(t@, j as int),
        decreases t.len() - j,
    {
        j = j + 1;
    }
    j
}

pub fn find_field_end(t: &Vec<char>, i: usize) -> (r: usize)
    requires
        i <= t.len(),
    ensures
        r == field_end(t@, i as int),
        i <= r <= t.len(),
{
    let mut j = i;
    while j < t.len() && !(t[j] == ',' || t[j] == '\r' || t[j] == '\n')
        invariant
            i <= j <= t.len(),
            field_end(t@, i as int) == field_end(t@, j as int),
        decreases t.len() - j,
    {
        j = j + 1;
    }
    j
}

pub fn find_bracket(t: &Vec<char>, i: usize) -> (r: usize)
    requires
        i <= t.len(),
    ensures
        r == bracket_at(t@, i as int),
        i <= r <= t.len(),
{
    let mut j = i;
    while j < t.len() && t[j] != '['
        invariant
            i <= j <= t.len(),
            bracket_at(t@, i as int) == bracket_at(t@, j as int),
        decreases t.len() - j,
    {
        j = j + 1;
    }
    j
}

// ---------------------------------------------------------------------------
// Trimming
// ---------------------------------------------------------------------------

/// Start of `t[a..b]` once leading white space is removed.
pub open spec fn trim_start(t: Seq<char>, a: int, b: int) -> int
    decreases b - a,
{
    if a < b && is_white_space(t[a]) {
        trim_start(t, a + 1, b)
    } else {
        a
    }
}

/// End of `t[a..b]` once trailing white space is removed.
pub open spec fn trim_end(t: Seq<char>, a: int, b: int) -> int
    decreases b - a,
{
    if a < b && is_white_space(t[b - 1]) {
        trim_end(t, a, b - 1)
    } else {
        b
    }
}

/// `t[a..b]` without leading and trailing white space (what `str::trim` returns).
pub open spec fn trimmed(t: Seq<char>, a: int, b: int) -> Seq<char> {
    let s = trim_start(t, a, b);
    t.subrange(s, trim_end(t, s, b))
}

/// Bounds of `t[a..b]` without leading and trailing white space.
pub fn trim_bounds(t: &Vec<char>, a: usize, b: usize) -> (r: (usize, usize))
    requires
        a <= b <= t.len(),
    ensures
        r.0 == trim_start(t@, a as int, b as int),
        r.1 == trim_end(t@, r.0 as int, b as int),
        a <= r.0 <= r.1 <= b,
{
    let mut s = a;
    while s < b && white_space(t[s])
        invariant
            a <= s <= b <= t.len(),
            trim_start(t@, a as int, b as int) == trim_start(t@, s as int, b as int),
        decreases b - s,
    {
        s = s + 1;
    }
    let mut e = b;
    while s < e && white_space(t[e - 1])
        invariant
            a <= s <= e <= b <= t.len(),
            trim_end(t@, s as int, b as int) == trim_end(t@, s as int, e as int),
        decreases e - s,
    {
        e = e - 1;
    }
    (s, e)
}

// ---------------------------------------------------------------------------
// Integers
// ---------------------------------------------------------------------------

/// Value of an ASCII digit.
pub open spec fn digit_value(c: char) -> int {
    (c as int) - ('0' as int)
}

/// Value of a run of ASCII digits, most significant first.
pub open spec fn digits_value(d: Seq<char>) -> int
    decreases d.len(),
{
    if d.len() == 0 {
        0
    } else {
        digits_value(d.drop_last()) * 10 + digit_value(d.last())
    }
}

pub open spec fn all_digits(d: Seq<char>) -> bool {
    forall|k: int| 0 <= k < d.len() ==> is_digit(#[trigger] d[k])
}

/// The integer that `s` spells under Rust's decimal integer syntax (`FromStr`):
/// an optional `+` (or, for a signed type, `-`) and then one or more ASCII digits.
/// `None` where `s` does not have that shape.
pub open spec fn decimal(s: Seq<char>, signed: bool) -> Option<int> {
    if s.len() == 0 || (s.len() == 1 && (s[0] == '+' || s[0] == '-')) {
        None
    } else {
        let negative = signed && s[0] == '-';
        let d = if s[0] == '+' || negative {
            s.drop_first()
        } else {
            s
        };
        if all_digits(d) {
            Some(
                if negative {
                    -digits_value(d)
                } else {
                    digits_value(d)
                },
            )
        } else {
            None
        }
    }
}

/// What `s.parse::<T>()` gives for an integer type `T` with range `lo..=hi`:
/// `Some(v)` where `s` spells `v` and `v` is in range, `None` where it fails.
pub open spec fn parse_int(s: Seq<char>, signed: bool, lo: int, hi: int) -> Option<int> {
    match decimal(s, signed) {
        Some(v) => if lo <= v <= hi {
            Some(v)
        } else {
            None
        },
        None => None,
    }
}

pub open spec fn parse_i32(s: Seq<char>) -> Option<int> {
    parse_int(s, true, i32::MIN as int, i32::MAX as int)
}

pub open spec fn parse_usize(s: Seq<char>) -> Option<int> {
    parse_int(s, false, 0, usize::MAX as int)
}

pub open spec fn parse_u8(s: Seq<char>) -> Option<int> {
    parse_int(s, false, 0, u8::MAX as int)
}

pub proof fn lemma_digits_value_nonneg(d: Seq<char>)
    requires
        all_digits(d),
    ensures
        digits_value(d) >= 0,
    decreases d.len(),
{
    if d.len() > 0 {
        assert(all_digits(d.drop_last()));
        lemma_digits_value_nonneg(d.drop_last());
        assert(is_digit(d[d.len() - 1]));
    }
}

/// Magnitude of the digit run `t[lo..]` when every character is a digit and
/// the magnitude is at most `bound`.
fn digits_within(t: &Vec<char>, lo: usize, bound: u64) -> (r: Option<u64>)
    requires
        lo <= t.len(),
    ensures
        ({
            let d = t@.subrange(lo as int, t@.len() as int);
            match r {
                Some(v) => all_digits(d) && digits_value(d) <= bound && v == digits_value(d),
                None => !all_digits(d) || digits_value(d) > bound,
            }
        }),
{
    let mut acc: u128 = 0;
    let mut over = false;
    let mut j = lo;
    while j < t.len()
        invariant
            lo <= j <= t.len(),
            all_digits(t@.subrange(lo as int, j as int)),
            over ==> digits_value(t@.subrange(lo as int, j as int)) > bound,
            !over ==> acc == digits_value(t@.subrange(lo as int, j as int)) && acc <= bound,
        decreases t.len() - j,
    {
        let c = t[j];
        let ghost p = t@.subrange(lo as int, j as int);
        let ghost q = t@.subrange(lo as int, j + 1);
        assert(q.drop_last() =~= p);
        assert(q.last() == c);
        if !digit(c) {
            assert(!all_digits(t@.subrange(lo as int, t@.len() as int))) by {
                assert(t@.subrange(lo as int, t@.len() as int)[j - lo] == c);
            }
            return None;
        }
        assert(all_digits(q)) by {
            assert forall|k: int| 0 <= k < q.len() implies is_digit(#[trigger] q[k]) by {
                if k < p.len() {
                    assert(q[k] == p[k]);
                }
            }
        }
        proof {
            lemma_digits_value_nonneg(p);
        }
        let dv = (c as u32) - ('0' as u32);
        if !over {
            let next = acc * 10 + dv as u128;
            if next > bound as u128 {
                over = true;
            } else {
                acc = next;
            }
        }
        j = j + 1;
    }
    assert(t@.subrange(lo as int, j as int) =~= t@.subrange(lo as int, t@.len() as int));
    if over {
        None
    } else {
        Some(acc as u64)
    }
}

/// Rust's decimal integer syntax: sign handling of `decimal`, with the
/// magnitude bounded by `pos_bound` (non-negative) and `neg_bound` (negative).
/// Returns the sign and the magnitude.
fn decimal_parts(s: &Vec<char>, signed: bool, pos_bound: u64, neg_bound: u64) -> (r: Option<
    (bool, u64),
>)
    ensures
        match r {
            Some((neg, m)) => decimal(s@, signed) == Some(
                if neg {
                    -(m as int)
                } else {
                    m as int
                },
            ) && (neg ==> m <= neg_bound) && (!neg ==> m <= pos_bound) && (neg ==> signed),
            None => match decimal(s@, signed) {
                Some(v) => v > pos_bound || v < -(neg_bound as int),
                None => true,
            },
        },
{
    if s.len() == 0 {
        return None;
    }
    if s.len() == 1 && (s[0] == '+' || s[0] == '-') {
        return None;
    }
    let negative = signed && s[0] == '-';
    let start: usize = if s[0] == '+' || negative {
        1
    } else {
        0
    };
    let ghost d = if s@[0] == '+' || negative {
        s@.drop_first()
    } else {
        s@
    };
    assert(s@.subrange(start as int, s@.len() as int) =~= d);
    let bound = if negative {
        neg_bound
    } else {
        pos_bound
    };
    match digits_within(s, start, bound) {
        Some(m) => Some((negative, m)),
        None => None,
    }
}

/// `s.parse::<i32>()`.
pub fn to_i32(s: &Vec<char>) -> (r: Option<i32>)
    ensures
        match r {
            Some(v) => parse_i32(s@) == Some(v as int),
            None => parse_i32(s@) is None,
        },
{
    match decimal_parts(s, true, 0x7fff_ffff, 0x8000_0000) {
        Some((neg, m)) => {
            if neg {
                Some((0 - (m as i64)) as i32)
            } else {
                Some(m as i32)
            }
        },
        None => None,
    }
}

/// `s.parse::<usize>()`.
pub fn to_usize(s: &Vec<char>) -> (r: Option<usize>)
    ensures
        match r {
            Some(v) => parse_usize(s@) == Some(v as int),
            None => parse_usize(s@) is None,
        },
{
    match decimal_parts(s, false, usize::MAX as u64, 0) {
        Some((_, m)) => Some(m as usize),
        None => None,
    }
}

/// `s.parse::<u8>()`.
pub fn to_u8(s: &Vec<char>) -> (r: Option<u8>)
    ensures
        match r {
            Some(v) => parse_u8(s@) == Some(v as int),
            None => parse_u8(s@) is None,
        },
{
    match decimal_parts(s, false, 0xff, 0) {
        Some((_, m)) => Some(m as u8),
        None => None,
    }
}

// ---------------------------------------------------------------------------
// Decimal floating-point syntax
// ---------------------------------------------------------------------------

/// Outcome of scanning a decimal float at some index: the end of the match,
/// no match, or a match that must be abandoned (an exponent marker with no
/// digits after it).
pub enum FloatScan {
    Found(usize),
    NoMatch,
    Cut,
}

/// Scan of a decimal float starting at `p`: an optional sign, then digits with
/// an optional `.` and optional fraction digits, or a `.` and one or more
/// digits; then, where an `e`/`E` follows, an optional sign and one or more
/// digits.
pub open spec fn float_scan(t: Seq<char>, p: int) -> FloatScan {
    let q = if p < t.len() && (t[p] == '+' || t[p] == '-') {
        p + 1
    } else {
        p
    };
    let d = digit_end(t, q);
    let m = if d > q {
        if d < t.len() && t[d] == '.' {
            digit_end(t, d + 1)
        } else {
            d
        }
    } else if q < t.len() && t[q] == '.' && digit_end(t, q + 1) > q + 1 {
        digit_end(t, q + 1)
    } else {
        -1
    };
    if m < 0 {
        FloatScan::NoMatch
    } else if m < t.len() && (t[m] == 'e' || t[m] == 'E') {
        let r = if m + 1 < t.len() && (t[m + 1] == '+' || t[m + 1] == '-') {
            m + 2
        } else {
            m + 1
        };
        if digit_end(t, r) > r {
            FloatScan::Found(digit_end(t, r) as usize)
        } else {
            FloatScan::Cut
        }
    } else {
        FloatScan::Found(m as usize)
    }
}

pub proof fn lemma_float_scan(t: Seq<char>, p: int)
    requires
        0 <= p <= t.len() <= usize::MAX,
    ensures
        float_scan(t, p) matches FloatScan::Found(e) ==> p < e <= t.len(),
{
    let q = if p < t.len() && (t[p] == '+' || t[p] == '-') {
        p + 1
    } else {
        p
    };
    lemma_digit_end(t, q);
    let d = digit_end(t, q);
    if d < t.len() {
        lemma_digit_end(t, d + 1);
    }
    if q < t.len() {
        lemma_digit_end(t, q + 1);
    }
    let m = if d > q {
        if d < t.len() && t[d] == '.' {
            digit_end(t, d + 1)
        } else {
            d
        }
    } else if q < t.len() && t[q] == '.' && digit_end(t, q + 1) > q + 1 {
        digit_end(t, q + 1)
    } else {
        -1
    };
    if m >= 0 && m < t.len() && (t[m] == 'e' || t[m] == 'E') {
        let r = if m + 1 < t.len() && (t[m + 1] == '+' || t[m + 1] == '-') {
            m + 2
        } else {
            m + 1
        };
        lemma_digit_end(t, r);
    }
}

/// Scans a decimal float at `p` (see `float_scan`).
pub fn scan_float(t: &Vec<char>, p: usize) -> (r: FloatScan)
    requires
        p <= t.len(),
    ensures
        r == float_scan(t@, p as int),
{
    proof {
        lemma_float_scan(t@, p as int);
    }
    let q: usize = if p < t.len() && (t[p] == '+' || t[p] == '-') {
        p + 1
    } else {
        p
    };
    let d = skip_digits(t, q);
    let m: usize;
    if d > q {
        if d < t.len() && t[d] == '.' {
            m = skip_digits(t, d + 1);
        } else {
            m = d;
        }
    } else if q < t.len() && t[q] == '.' {
        let f = skip_digits(t, q + 1);
        if f > q + 1 {
            m = f;
        } else {
            return FloatScan::NoMatch;
        }
    } else {
        return FloatScan::NoMatch;
    }
    if m < t.len() && (t[m] == 'e' || t[m] == 'E') {
        let r: usize = if m + 1 < t.len() && (t[m + 1] == '+' || t[m + 1] == '-') {
            m + 2
        } else {
            m + 1
        };
        let e = skip_digits(t, r);
        if e > r {
            FloatScan::Found(e)
        } else {
            FloatScan::Cut
        }
    } else {
        FloatScan::Found(m)
    }
}

/// `b` is a decimal number under `f32`'s `FromStr` grammar (without sign):
/// `( Digit+ | Digit+ '.' Digit* | Digit* '.' Digit+ ) Exp?` with
/// `Exp ::= ('e' | 'E') Sign? Digit+`.
pub open spec fn is_float_number(b: Seq<char>) -> bool {
    let m = digit_end(b, 0);
    let has_point = m < b.len() && b[m] == '.';
    let f = if has_point {
        digit_end(b, m + 1)
    } else {
        m
    };
    &&& (m > 0 || f > m + 1)
    &&& (f == b.len() || ((b[f] == 'e' || b[f] == 'E') && exponent_digits(b, f + 1)))
}

/// From `p` on, `b` holds an optional sign and then only digits, at least one.
pub open spec fn exponent_digits(b: Seq<char>, p: int) -> bool {
    let q = if p < b.len() && (b[p] == '+' || b[p] == '-') {
        p + 1
    } else {
        p
    };
    q < b.len() && digit_end(b, q) == b.len()
}

/// `b` equals the word whose lower-case and upper-case letters are `lower` and `upper`,
/// ignoring ASCII case.
pub open spec fn is_word_ignoring_case(b: Seq<char>, lower: Seq<char>, upper: Seq<char>) -> bool {
    b.len() == lower.len() && forall|k: int|
        0 <= k < b.len() ==> (#[trigger] b[k] == lower[k] || b[k] == upper[k])
}

/// `b` is `inf`, `infinity` or `nan`, ignoring ASCII case.
pub open spec fn is_inf_or_nan(b: Seq<char>) -> bool {
    ||| is_word_ignoring_case(b, seq!['i', 'n', 'f'], seq!['I', 'N', 'F'])
    ||| is_word_ignoring_case(
        b,
        seq!['i', 'n', 'f', 'i', 'n', 'i', 't', 'y'],
        seq!['I', 'N', 'F', 'I', 'N', 'I', 'T', 'Y'],
    )
    ||| is_word_ignoring_case(b, seq!['n', 'a', 'n'], seq!['N', 'A', 'N'])
}

/// `s` with one leading `+` or `-` removed.
pub open spec fn without_sign(s: Seq<char>) -> Seq<char> {
    if s.len() > 0 && (s[0] == '+' || s[0] == '-') {
        s.drop_first()
    } else {
        s
    }
}

/// `s.parse::<f32>()` succeeds: an optional sign, then a decimal number or
/// `inf`/`infinity`/`nan` in any ASCII case.
pub open spec fn is_f32_text(s: Seq<char>) -> bool {
    let b = without_sign(s);
    s.len() > 0 && b.len() > 0 && (is_float_number(b) || is_inf_or_nan(b))
}

/// The characters `t[a..b]` as a new vector.
pub fn slice_of(t: &Vec<char>, a: usize, b: usize) -> (r: Vec<char>)
    requires
        a <= b <= t.len(),
    ensures
        r@ == t@.subrange(a as int, b as int),
{
    let mut r: Vec<char> = Vec::new();
    let mut k = a;
    while k < b
        invariant
            a <= k <= b <= t.len(),
            r@ == t@.subrange(a as int, k as int),
        decreases b - k,
    {
        r.push(t[k]);
        assert(r@ =~= t@.subrange(a as int, k + 1));
        k = k + 1;
    }
    r
}

fn word_ignoring_case(b: &Vec<char>, lower: &Vec<char>, upper: &Vec<char>) -> (r: bool)
    requires
        lower.len() == upper.len(),
    ensures
        r == is_word_ignoring_case(b@, lower@, upper@),
{
    if b.len() != lower.len() {
        return false;
    }
    let mut k: usize = 0;
    while k < b.len()
        invariant
            k <= b.len() == lower.len() == upper.len(),
            forall|j: int| 0 <= j < k ==> (#[trigger] b@[j] == lower@[j] || b@[j] == upper@[j]),
        decreases b.len() - k,
    {
        if !(b[k] == lower[k] || b[k] == upper[k]) {
            return false;
        }
        k = k + 1;
    }
    true
}

fn inf_or_nan(b: &Vec<char>) -> (r: bool)
    ensures
        r == is_inf_or_nan(b@),
{
    let inf_l = vec!['i', 'n', 'f'];
    let inf_u = vec!['I', 'N', 'F'];
    let infinity_l = vec!['i', 'n', 'f', 'i', 'n', 'i', 't', 'y'];
    let infinity_u = vec!['I', 'N', 'F', 'I', 'N', 'I', 'T', 'Y'];
    let nan_l = vec!['n', 'a', 'n'];
    let nan_u = vec!['N', 'A', 'N'];
    assert(inf_l@ =~= seq!['i', 'n', 'f']);
    assert(inf_u@ =~= seq!['I', 'N', 'F']);
    assert(infinity_l@ =~= seq!['i', 'n', 'f', 'i', 'n', 'i', 't', 'y']);
    assert(infinity_u@ =~= seq!['I', 'N', 'F', 'I', 'N', 'I', 'T', 'Y']);
    assert(nan_l@ =~= seq!['n', 'a', 'n']);
    assert(nan_u@ =~= seq!['N', 'A', 'N']);
    word_ignoring_case(b, &inf_l, &inf_u) || word_ignoring_case(b, &infinity_l, &infinity_u)
        || word_ignoring_case(b, &nan_l, &nan_u)
}

fn float_number(b: &Vec<char>) -> (r: bool)
    ensures
        r == is_float_number(b@),
{
    let m = skip_digits(b, 0);
    let has_point = m < b.len() && b[m] == '.';
    let f = if has_point {
        skip_digits(b, m + 1)
    } else {
        m
    };
    if !(m > 0 || f > m + 1) {
        return false;
    }
    if f == b.len() {
        return true;
    }
    if !(b[f] == 'e' || b[f] == 'E') {
        return false;
    }
    let p = f + 1;
    let q: usize = if p < b.len() && (b[p] == '+' || b[p] == '-') {
        p + 1
    } else {
        p
    };
    q < b.len() && skip_digits(b, q) == b.len()
}

/// Whether `s.parse::<f32>()` succeeds.
pub fn f32_text(s: &Vec<char>) -> (r: bool)
    ensures
        r == is_f32_text(s@),
{
    if s.len() == 0 {
        return false;
    }
    let start: usize = if s[0] == '+' || s[0] == '-' {
        1
    } else {
        0
    };
    let b = slice_of(s, start, s.len());
    assert(b@ =~= without_sign(s@));
    b.len() > 0 && (float_number(&b) || inf_or_nan(&b))
}

// ---------------------------------------------------------------------------
// Conversions between `str`/`String` and characters
// ---------------------------------------------------------------------------

/// The characters of `s`, in order.
pub fn chars_of(s: &str) -> (r: Vec<char>)
    ensures
        r@ == s@,
{
    let mut r: Vec<char> = Vec::new();
    for c in it: s.chars()
        invariant
            r@ == it.seq().take(it.index() as int),
    {
        r.push(c);
        assert(r@ =~= it.seq().take(it.index() + 1));
    }
    r
}

/// Appends `c` to `s` (`String::push`).
#[verifier::external_body]
fn push_char(s: &mut String, c: char)
    ensures
        final(s)@ == old(s)@.push(c),
{
    s.push(c)
}

/// The string made of `t[a..b]`.
pub fn string_of(t: &Vec<char>, a: usize, b: usize) -> (r: String)
    requires
        a <= b <= t.len(),
    ensures
        r@ == t@.subrange(a as int, b as int),
{
    let mut r = String::new();
    let mut k = a;
    while k < b
        invariant
            a <= k <= b <= t.len(),
            r@ == t@.subrange(a as int, k as int),
        decreases b - k,
    {
        push_char(&mut r, t[k]);
        assert(r@ =~= t@.subrange(a as int, k + 1));
        k = k + 1;
    }
    r
}

} // verus!
