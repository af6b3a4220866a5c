//! Reader of the `.osu` beatmap text format.
use std::path::PathBuf;

use vstd::prelude::*;

use crate::text::{
    chars_of, f32_text, float_scan, is_f32_text, lemma_float_scan, parse_i32, parse_int, parse_u8, parse_usize,
    scan_float, string_of, to_i32, to_u8, to_usize, FloatScan,
    alnum_end, blank_end, find_line_break, is_line_break, lemma_alnum_end, lemma_blank_end,
    lemma_line_break_at, line_break_at, field_end, find_field_end, lemma_field_end, bracket_at, find_bracket, lemma_bracket_at, skip_alnums, skip_blanks, slice_of, trim_bounds, trimmed,
};

verus! {

/// A position on the osu! playfield (512 x 384 osu!pixels).
#[derive(Clone, Copy, PartialEq, Eq, Structural, Debug)]
pub struct Point {
    pub x: i32,
    pub y: i32,
}

impl DeepView for Point {
    type V = Point;

    open spec fn deep_view(&self) -> Point {
        *self
    }
}

/// The curve kind of a slider, written `B`, `C`, `L` or `P` in a beatmap.
#[derive(Clone, Copy, PartialEq, Eq, Structural, Debug)]
pub enum CurveType {
    Bezier,
    CentripetalCatmullRom,
    Linear,
    PerfectCircle,
}

/// The `[General]` section values the game reads.
#[derive(Clone, Debug)]
pub struct General {
    pub audio_filename: String,
    pub audio_lead_in: usize,
}

/// The `[Metadata]` section values the game reads.
#[derive(Clone, Debug)]
pub struct Metadata {
    pub title: String,
    pub version: String,
}

} // verus!

verus! {

/// The section kinds a beatmap can hold, written `[Name]` on a line of their own.
#[derive(Clone, Copy, PartialEq, Eq, Structural, Debug)]
pub enum OsuHeader {
    General,
    Editor,
    Metadata,
    Difficulty,
    Events,
    TimingPoints,
    Colours,
    HitObjects,
}

/// Spec-level outcome of scanning one grammar element at an index: the
/// element ends at the given index with the given value, the element is not
/// there, or the input ended while the element could still continue.
pub enum Scan<T> {
    Done(int, T),
    Stop,
    Short,
}

/// Executable counterpart of `Scan`.
pub enum Step<T> {
    Done(usize, T),
    Stop,
    Short,
}

// ---------------------------------------------------------------------------
// Lines
// ---------------------------------------------------------------------------

/// End of the text of the line that continues at `i`: the next `\n` or
/// `\r\n`, or the end of the input. `None` where a `\r` comes first that is
/// not followed by `\n`.
pub open spec fn line_end(t: Seq<char>, i: int) -> Option<int> {
    let j = line_break_at(t, i);
    if j >= t.len() || t[j] == '\n' {
        Some(j)
    } else if j + 1 < t.len() && t[j + 1] == '\n' {
        Some(j)
    } else {
        None
    }
}

/// Index after a `\n` or `\r\n` that starts at `i`.
pub open spec fn newline_end(t: Seq<char>, i: int) -> Option<int> {
    if 0 <= i < t.len() && t[i] == '\n' {
        Some(i + 1)
    } else if 0 <= i && i + 1 < t.len() && t[i] == '\r' && t[i + 1] == '\n' {
        Some(i + 2)
    } else {
        None
    }
}

/// End of the comment lines (`//` up to the line end, then blanks) that start at `i`.
pub open spec fn comments_end(t: Seq<char>, i: int) -> int
    decreases t.len() - i,
{
    if 0 <= i && i + 1 < t.len() && t[i] == '/' && t[i + 1] == '/' {
        match line_end(t, i + 2) {
            Some(j) => {
                let k = blank_end(t, j);
                if i < k <= t.len() {
                    comments_end(t, k)
                } else {
                    i
                }
            },
            None => i,
        }
    } else {
        i
    }
}

pub proof fn lemma_line_end(t: Seq<char>, i: int)
    requires
        0 <= i <= t.len(),
    ensures
        line_end(t, i) matches Some(j) ==> i <= j <= t.len() && forall|k: int|
            i <= k < j ==> !is_line_break(#[trigger] t[k]),
{
    lemma_line_break_at(t, i);
}

pub proof fn lemma_comments_end(t: Seq<char>, i: int)
    requires
        0 <= i <= t.len(),
    ensures
        i <= comments_end(t, i) <= t.len(),
    decreases t.len() - i,
{
    if i + 1 < t.len() && t[i] == '/' && t[i + 1] == '/' {
        lemma_line_end(t, i + 2);
        if let Some(j) = line_end(t, i + 2) {
            lemma_blank_end(t, j);
            let k = blank_end(t, j);
            if i < k <= t.len() {
                lemma_comments_end(t, k);
            }
        }
    }
}

fn end_of_line(t: &Vec<char>, i: usize) -> (r: Option<usize>)
    requires
        i <= t.len(),
    ensures
        match r {
            Some(j) => line_end(t@, i as int) == Some(j as int),
            None => line_end(t@, i as int) is None,
        },
        r matches Some(j) ==> i <= j <= t.len(),
{
    let j = find_line_break(t, i);
    if j >= t.len() || t[j] == '\n' {
        Some(j)
    } else if j + 1 < t.len() && t[j + 1] == '\n' {
        Some(j)
    } else {
        None
    }
}

fn after_newline(t: &Vec<char>, i: usize) -> (r: Option<usize>)
    requires
        i <= t.len(),
    ensures
        match r {
            Some(j) => newline_end(t@, i as int) == Some(j as int),
            None => newline_end(t@, i as int) is None,
        },
        r matches Some(j) ==> i < j <= t.len(),
{
    if i < t.len() && t[i] == '\n' {
        Some(i + 1)
    } else if i < t.len() && i + 1 < t.len() && t[i] == '\r' && t[i + 1] == '\n' {
        Some(i + 2)
    } else {
        None
    }
}

fn skip_comments(t: &Vec<char>, i: usize) -> (r: usize)
    requires
        i <= t.len(),
    ensures
        r == comments_end(t@, i as int),
        i <= r <= t.len(),
{
    let mut j = i;
    loop
        invariant
            i <= j <= t.len(),
            comments_end(t@, i as int) == comments_end(t@, j as int),
        decreases t.len() - j,
    {
        if !(j < t.len() && j + 1 < t.len() && t[j] == '/' && t[j + 1] == '/') {
            proof {
                lemma_comments_end(t@, j as int);
            }
            return j;
        }
        match end_of_line(t, j + 2) {
            Some(e) => {
                let k = skip_blanks(t, e);
                if j < k {
                    j = k;
                } else {
                    return j;
                }
            },
            None => {
                return j;
            },
        }
    }
}

// ---------------------------------------------------------------------------
// Key-value sections
// ---------------------------------------------------------------------------

/// One `Key: value` line at `i`: a run of ASCII letters and digits, blanks,
/// `:`, and the rest of the line with white space trimmed, then the line
/// break if there is one.
pub open spec fn key_value(t: Seq<char>, i: int) -> Scan<(Seq<char>, Seq<char>)> {
    let k = alnum_end(t, i);
    if k == i {
        Scan::Stop
    } else {
        let j = blank_end(t, k);
        if j >= t.len() {
            Scan::Short
        } else if t[j] != ':' {
            Scan::Stop
        } else {
            match line_end(t, j + 1) {
                None => Scan::Stop,
                Some(e) => {
                    let end = match newline_end(t, e) {
                        Some(n) => n,
                        None => e,
                    };
                    Scan::Done(end, (t.subrange(i, k), trimmed(t, j + 1, e)))
                },
            }
        }
    }
}

/// A key-value line with the comment lines around it.
pub open spec fn kv_entry(t: Seq<char>, i: int) -> Scan<(Seq<char>, Seq<char>)> {
    match key_value(t, comments_end(t, i)) {
        Scan::Done(e, kv) => Scan::Done(comments_end(t, e), kv),
        Scan::Stop => Scan::Stop,
        Scan::Short => Scan::Short,
    }
}

/// `Some(a + r)` where `o` is `Some(r)`.
pub open spec fn prepend<T>(a: Seq<T>, o: Option<Seq<T>>) -> Option<Seq<T>> {
    match o {
        Some(r) => Some(a + r),
        None => None,
    }
}

/// The key-value entries from `i` on, up to the first place that does not
/// hold one. `None` where the input ends inside an entry.
pub open spec fn kv_entries(t: Seq<char>, i: int) -> Option<Seq<(Seq<char>, Seq<char>)>>
    decreases t.len() - i,
{
    match kv_entry(t, i) {
        Scan::Done(e, kv) => if i < e <= t.len() {
            prepend(seq![kv], kv_entries(t, e))
        } else {
            None
        },
        Scan::Stop => Some(Seq::empty()),
        Scan::Short => None,
    }
}

/// The entries of a key-value section body: one or more. `None` where the
/// body does not start with an entry or ends inside one.
pub open spec fn kv_section(t: Seq<char>) -> Option<Seq<(Seq<char>, Seq<char>)>> {
    match kv_entry(t, 0) {
        Scan::Done(e, kv) => if 0 <= e <= t.len() {
            prepend(seq![kv], kv_entries(t, e))
        } else {
            None
        },
        _ => None,
    }
}

pub proof fn lemma_key_value(t: Seq<char>, i: int)
    requires
        0 <= i <= t.len(),
    ensures
        key_value(t, i) matches Scan::Done(e, kv) ==> i < e <= t.len(),
{
    lemma_alnum_end(t, i);
    let k = alnum_end(t, i);
    lemma_blank_end(t, k);
    let j = blank_end(t, k);
    if j < t.len() && t[j] == ':' {
        lemma_line_end(t, j + 1);
    }
}

pub proof fn lemma_kv_entry(t: Seq<char>, i: int)
    requires
        0 <= i <= t.len(),
    ensures
        kv_entry(t, i) matches Scan::Done(e, kv) ==> i < e <= t.len(),
{
    lemma_comments_end(t, i);
    let c = comments_end(t, i);
    lemma_key_value(t, c);
    if let Scan::Done(e, kv) = key_value(t, c) {
        lemma_comments_end(t, e);
    }
}

/// A character vector's deep view is its view.
pub proof fn lemma_chars_deep_view(v: Vec<char>)
    ensures
        v.deep_view() == v@,
{
    assert(v.deep_view() =~= v@);
}

pub proof fn lemma_prepend_assoc<T>(a: Seq<T>, b: Seq<T>, o: Option<Seq<T>>)
    ensures
        prepend(a, prepend(b, o)) == prepend(a + b, o),
{
    if let Some(r) = o {
        assert(a + (b + r) =~= (a + b) + r);
    }
}

pub proof fn lemma_prepend_empty<T>(a: Seq<T>)
    ensures
        prepend(a, Some(Seq::<T>::empty())) == Some(a),
{
    assert(a + Seq::<T>::empty() =~= a);
}

fn same_chars(a: &Vec<char>, b: &Vec<char>) -> (r: bool)
    ensures
        r == (a@ == b@),
{
    if a.len() != b.len() {
        return false;
    }
    let mut k: usize = 0;
    while k < a.len()
        invariant
            k <= a.len() == b.len(),
            forall|j: int| 0 <= j < k ==> a@[j] == b@[j],
        decreases a.len() - k,
    {
        if a[k] != b[k] {
            return false;
        }
        k = k + 1;
    }
    assert(a@ =~= b@);
    true
}

fn scan_key_value(t: &Vec<char>, i: usize) -> (r: Step<(Vec<char>, Vec<char>)>)
    requires
        i <= t.len(),
    ensures
        match key_value(t@, i as int) {
            Scan::Done(e, kv) => r matches Step::Done(e2, v) && e2 == e && v.deep_view() == kv,
            Scan::Stop => r is Stop,
            Scan::Short => r is Short,
        },
{
    let k = skip_alnums(t, i);
    if k == i {
        return Step::Stop;
    }
    let j = skip_blanks(t, k);
    if j >= t.len() {
        return Step::Short;
    }
    if t[j] != ':' {
        return Step::Stop;
    }
    match end_of_line(t, j + 1) {
        None => Step::Stop,
        Some(e) => {
            let end = match after_newline(t, e) {
                Some(n) => n,
                None => e,
            };
            let (vs, ve) = trim_bounds(t, j + 1, e);
            let key = slice_of(t, i, k);
            let value = slice_of(t, vs, ve);
            proof {
                lemma_chars_deep_view(key);
                lemma_chars_deep_view(value);
            }
            Step::Done(end, (key, value))
        },
    }
}

fn scan_kv_entry(t: &Vec<char>, i: usize) -> (r: Step<(Vec<char>, Vec<char>)>)
    requires
        i <= t.len(),
    ensures
        match kv_entry(t@, i as int) {
            Scan::Done(e, kv) => r matches Step::Done(e2, v) && e2 == e && v.deep_view() == kv,
            Scan::Stop => r is Stop,
            Scan::Short => r is Short,
        },
        r matches Step::Done(e, v) ==> i < e <= t.len(),
{
    proof {
        lemma_kv_entry(t@, i as int);
    }
    let c = skip_comments(t, i);
    match scan_key_value(t, c) {
        Step::Done(e, kv) => {
            proof {
                lemma_key_value(t@, c as int);
            }
            Step::Done(skip_comments(t, e), kv)
        },
        Step::Stop => Step::Stop,
        Step::Short => Step::Short,
    }
}

/// The entries of a key-value section body (see `kv_section`).
pub fn parse_kv_section(t: &Vec<char>) -> (r: Option<Vec<(Vec<char>, Vec<char>)>>)
    ensures
        match kv_section(t@) {
            Some(s) => r matches Some(v) && v.deep_view() == s,
            None => r is None,
        },
{
    let mut acc: Vec<(Vec<char>, Vec<char>)> = Vec::new();
    let mut j: usize;
    match scan_kv_entry(t, 0) {
        Step::Done(e, kv) => {
            acc.push(kv);
            j = e;
        },
        _ => {
            return None;
        },
    }
    assert(kv_section(t@) == prepend(acc.deep_view(), kv_entries(t@, j as int))) by {
        assert(acc.deep_view() =~= seq![acc.deep_view()[0]]);
        lemma_kv_entry(t@, 0);
    }
    loop
        invariant
            j <= t.len(),
            kv_section(t@) == prepend(acc.deep_view(), kv_entries(t@, j as int)),
        decreases t.len() - j,
    {
        let ghost before = acc.deep_view();
        match scan_kv_entry(t, j) {
            Step::Done(e, kv) => {
                let ghost kvv = kv.deep_view();
                acc.push(kv);
                assert(acc.deep_view() =~= before + seq![kvv]);
                proof {
                    lemma_prepend_assoc(before, seq![kvv], kv_entries(t@, e as int));
                }
                j = e;
            },
            Step::Stop => {
                proof {
                    lemma_prepend_empty(before);
                }
                return Some(acc);
            },
            Step::Short => {
                return None;
            },
        }
    }
}

// ---------------------------------------------------------------------------
// List sections
// ---------------------------------------------------------------------------

/// The fields after the one that ends at `p`: each one follows a `,` and
/// runs up to the next `,` or line break. The list ends before a `,` that
/// is followed by an empty field, or at any other character; it is `Short`
/// where the input ends right after a field.
pub open spec fn more_fields(t: Seq<char>, p: int) -> Scan<Seq<Seq<char>>>
    decreases t.len() - p,
{
    if p >= t.len() || p < 0 {
        Scan::Short
    } else if t[p] != ',' {
        Scan::Done(p, Seq::empty())
    } else {
        let f = field_end(t, p + 1);
        if f <= p + 1 || f > t.len() {
            Scan::Done(p, Seq::empty())
        } else {
            match more_fields(t, f) {
                Scan::Done(q, rest) => Scan::Done(q, seq![t.subrange(p + 1, f)] + rest),
                Scan::Stop => Scan::Stop,
                Scan::Short => Scan::Short,
            }
        }
    }
}

/// One list line at `i`: blanks, one or more comma-separated fields, blanks.
pub open spec fn list_value(t: Seq<char>, i: int) -> Scan<Seq<Seq<char>>> {
    let a = blank_end(t, i);
    let f = field_end(t, a);
    if f == a {
        Scan::Stop
    } else {
        match more_fields(t, f) {
            Scan::Done(p, rest) => Scan::Done(blank_end(t, p), seq![t.subrange(a, f)] + rest),
            Scan::Stop => Scan::Stop,
            Scan::Short => Scan::Short,
        }
    }
}

/// A list line with the comment lines around it.
pub open spec fn list_entry(t: Seq<char>, i: int) -> Scan<Seq<Seq<char>>> {
    match list_value(t, comments_end(t, i)) {
        Scan::Done(e, row) => Scan::Done(comments_end(t, e), row),
        Scan::Stop => Scan::Stop,
        Scan::Short => Scan::Short,
    }
}

/// The list entries from `i` on, up to the first place that does not hold
/// one. `None` where the input ends inside an entry.
pub open spec fn list_entries(t: Seq<char>, i: int) -> Option<Seq<Seq<Seq<char>>>>
    decreases t.len() - i,
{
    match list_entry(t, i) {
        Scan::Done(e, row) => if i < e <= t.len() {
            prepend(seq![row], list_entries(t, e))
        } else {
            None
        },
        Scan::Stop => Some(Seq::empty()),
        Scan::Short => None,
    }
}

/// The rows of a list section body: one or more. `None` where the body does
/// not start with a row or ends inside one.
pub open spec fn list_section(t: Seq<char>) -> Option<Seq<Seq<Seq<char>>>> {
    match list_entry(t, 0) {
        Scan::Done(e, row) => if 0 <= e <= t.len() {
            prepend(seq![row], list_entries(t, e))
        } else {
            None
        },
        _ => None,
    }
}

pub proof fn lemma_more_fields(t: Seq<char>, p: int)
    requires
        0 <= p <= t.len(),
    ensures
        more_fields(t, p) matches Scan::Done(q, rest) ==> p <= q <= t.len(),
        !(more_fields(t, p) is Stop),
    decreases t.len() - p,
{
    if p < t.len() && t[p] == ',' {
        lemma_field_end(t, p + 1);
        let f = field_end(t, p + 1);
        if p + 1 < f <= t.len() {
            lemma_more_fields(t, f);
        }
    }
}

pub proof fn lemma_list_entry(t: Seq<char>, i: int)
    requires
        0 <= i <= t.len(),
    ensures
        list_entry(t, i) matches Scan::Done(e, row) ==> i < e <= t.len(),
{
    lemma_comments_end(t, i);
    let c = comments_end(t, i);
    lemma_blank_end(t, c);
    let a = blank_end(t, c);
    lemma_field_end(t, a);
    let f = field_end(t, a);
    lemma_more_fields(t, f);
    if let Scan::Done(p, rest) = more_fields(t, f) {
        lemma_blank_end(t, p);
        lemma_comments_end(t, blank_end(t, p));
    }
}

fn scan_more_fields(t: &Vec<char>, p0: usize) -> (r: Step<Vec<Vec<char>>>)
    requires
        p0 <= t.len(),
    ensures
        match more_fields(t@, p0 as int) {
            Scan::Done(q, rest) => r matches Step::Done(q2, v) && q2 == q && v.deep_view() == rest,
            Scan::Stop => r is Stop,
            Scan::Short => r is Short,
        },
        r matches Step::Done(q, v) ==> p0 <= q <= t.len(),
{
    proof {
        lemma_more_fields(t@, p0 as int);
    }
    let mut acc: Vec<Vec<char>> = Vec::new();
    let mut p = p0;
    assert(acc.deep_view() =~= Seq::<Seq<char>>::empty());
    loop
        invariant
            p0 <= p <= t.len(),
            more_fields(t@, p0 as int) == (match more_fields(t@, p as int) {
                Scan::Done(q, rest) => Scan::Done(q, acc.deep_view() + rest),
                Scan::Stop => Scan::Stop,
                Scan::Short => Scan::Short,
            }),
        decreases t.len() - p,
    {
        if p >= t.len() {
            return Step::Short;
        }
        if t[p] != ',' {
            assert(acc.deep_view() + Seq::<Seq<char>>::empty() =~= acc.deep_view());
            return Step::Done(p, acc);
        }
        let f = find_field_end(t, p + 1);
        if f <= p + 1 {
            assert(acc.deep_view() + Seq::<Seq<char>>::empty() =~= acc.deep_view());
            return Step::Done(p, acc);
        }
        let field = slice_of(t, p + 1, f);
        proof {
            lemma_chars_deep_view(field);
        }
        let ghost before = acc.deep_view();
        acc.push(field);
        assert(acc.deep_view() =~= before + seq![t@.subrange(p + 1, f as int)]);
        proof {
            match more_fields(t@, f as int) {
                Scan::Done(q, rest) => {
                    assert(before + (seq![t@.subrange(p + 1, f as int)] + rest) =~= acc.deep_view()
                        + rest);
                },
                _ => {},
            }
        }
        p = f;
    }
}

fn scan_list_value(t: &Vec<char>, i: usize) -> (r: Step<Vec<Vec<char>>>)
    requires
        i <= t.len(),
    ensures
        match list_value(t@, i as int) {
            Scan::Done(e, row) => r matches Step::Done(e2, v) && e2 == e && v.deep_view() == row,
            Scan::Stop => r is Stop,
            Scan::Short => r is Short,
        },
{
    let a = skip_blanks(t, i);
    let f = find_field_end(t, a);
    if f == a {
        return Step::Stop;
    }
    let first = slice_of(t, a, f);
    proof {
        lemma_chars_deep_view(first);
    }
    match scan_more_fields(t, f) {
        Step::Done(p, rest) => {
            let mut row: Vec<Vec<char>> = Vec::new();
            row.push(first);
            let ghost rv = rest.deep_view();
            let mut rest = rest;
            row.append(&mut rest);
            assert(row.deep_view() =~= seq![t@.subrange(a as int, f as int)] + rv);
            Step::Done(skip_blanks(t, p), row)
        },
        Step::Stop => Step::Stop,
        Step::Short => Step::Short,
    }
}

fn scan_list_entry(t: &Vec<char>, i: usize) -> (r: Step<Vec<Vec<char>>>)
    requires
        i <= t.len(),
    ensures
        match list_entry(t@, i as int) {
            Scan::Done(e, row) => r matches Step::Done(e2, v) && e2 == e && v.deep_view() == row,
            Scan::Stop => r is Stop,
            Scan::Short => r is Short,
        },
        r matches Step::Done(e, v) ==> i < e <= t.len(),
{
    proof {
        lemma_list_entry(t@, i as int);
    }
    let c = skip_comments(t, i);
    match scan_list_value(t, c) {
        Step::Done(e, row) => {
            proof {
                lemma_comments_end(t@, c as int);
                lemma_blank_end(t@, c as int);
                lemma_field_end(t@, blank_end(t@, c as int));
                lemma_more_fields(t@, field_end(t@, blank_end(t@, c as int)));
                if let Scan::Done(p, rest) = more_fields(
                    t@,
                    field_end(t@, blank_end(t@, c as int)),
                ) {
                    lemma_blank_end(t@, p);
                }
            }
            Step::Done(skip_comments(t, e), row)
        },
        Step::Stop => Step::Stop,
        Step::Short => Step::Short,
    }
}

/// The rows of a list section body (see `list_section`).
pub fn parse_list_section(t: &Vec<char>) -> (r: Option<Vec<Vec<Vec<char>>>>)
    ensures
        match list_section(t@) {
            Some(s) => r matches Some(v) && v.deep_view() == s,
            None => r is None,
        },
{
    let mut acc: Vec<Vec<Vec<char>>> = Vec::new();
    let mut j: usize;
    match scan_list_entry(t, 0) {
        Step::Done(e, row) => {
            acc.push(row);
            j = e;
        },
        _ => {
            return None;
        },
    }
    assert(list_section(t@) == prepend(acc.deep_view(), list_entries(t@, j as int))) by {
        assert(acc.deep_view() =~= seq![acc.deep_view()[0]]);
        lemma_list_entry(t@, 0);
    }
    loop
        invariant
            j <= t.len(),
            list_section(t@) == prepend(acc.deep_view(), list_entries(t@, j as int)),
        decreases t.len() - j,
    {
        let ghost before = acc.deep_view();
        match scan_list_entry(t, j) {
            Step::Done(e, row) => {
                let ghost rv = row.deep_view();
                acc.push(row);
                assert(acc.deep_view() =~= before + seq![rv]);
                proof {
                    lemma_prepend_assoc(before, seq![rv], list_entries(t@, e as int));
                }
                j = e;
            },
            Step::Stop => {
                proof {
                    lemma_prepend_empty(before);
                }
                return Some(acc);
            },
            Step::Short => {
                return None;
            },
        }
    }
}

// ---------------------------------------------------------------------------
// Sections
// ---------------------------------------------------------------------------

/// The section kind that `name` names, if any.
pub open spec fn header_of(name: Seq<char>) -> Option<OsuHeader> {
    if name == seq!['G', 'e', 'n', 'e', 'r', 'a', 'l'] {
        Some(OsuHeader::General)
    } else if name == seq!['E', 'd', 'i', 't', 'o', 'r'] {
        Some(OsuHeader::Editor)
    } else if name == seq!['M', 'e', 't', 'a', 'd', 'a', 't', 'a'] {
        Some(OsuHeader::Metadata)
    } else if name == seq!['D', 'i', 'f', 'f', 'i', 'c', 'u', 'l', 't', 'y'] {
        Some(OsuHeader::Difficulty)
    } else if name == seq!['E', 'v', 'e', 'n', 't', 's'] {
        Some(OsuHeader::Events)
    } else if name == seq!['T', 'i', 'm', 'i', 'n', 'g', 'P', 'o', 'i', 'n', 't', 's'] {
        Some(OsuHeader::TimingPoints)
    } else if name == seq!['C', 'o', 'l', 'o', 'u', 'r', 's'] {
        Some(OsuHeader::Colours)
    } else if name == seq!['H', 'i', 't', 'O', 'b', 'j', 'e', 'c', 't', 's'] {
        Some(OsuHeader::HitObjects)
    } else {
        None
    }
}

/// Section kind of `name` (see `header_of`).
pub fn header_named(name: &Vec<char>) -> (r: Option<OsuHeader>)
    ensures
        r == header_of(name@),
{
    let w = vec!['G', 'e', 'n', 'e', 'r', 'a', 'l'];
    assert(w@ =~= seq!['G', 'e', 'n', 'e', 'r', 'a', 'l']);
    if same_chars(name, &w) {
        return Some(OsuHeader::General);
    }
    let w = vec!['E', 'd', 'i', 't', 'o', 'r'];
    assert(w@ =~= seq!['E', 'd', 'i', 't', 'o', 'r']);
    if same_chars(name, &w) {
        return Some(OsuHeader::Editor);
    }
    let w = vec!['M', 'e', 't', 'a', 'd', 'a', 't', 'a'];
    assert(w@ =~= seq!['M', 'e', 't', 'a', 'd', 'a', 't', 'a']);
    if same_chars(name, &w) {
        return Some(OsuHeader::Metadata);
    }
    let w = vec!['D', 'i', 'f', 'f', 'i', 'c', 'u', 'l', 't', 'y'];
    assert(w@ =~= seq!['D', 'i', 'f', 'f', 'i', 'c', 'u', 'l', 't', 'y']);
    if same_chars(name, &w) {
        return Some(OsuHeader::Difficulty);
    }
    let w = vec!['E', 'v', 'e', 'n', 't', 's'];
    assert(w@ =~= seq!['E', 'v', 'e', 'n', 't', 's']);
    if same_chars(name, &w) {
        return Some(OsuHeader::Events);
    }
    let w = vec!['T', 'i', 'm', 'i', 'n', 'g', 'P', 'o', 'i', 'n', 't', 's'];
    assert(w@ =~= seq!['T', 'i', 'm', 'i', 'n', 'g', 'P', 'o', 'i', 'n', 't', 's']);
    if same_chars(name, &w) {
        return Some(OsuHeader::TimingPoints);
    }
    let w = vec!['C', 'o', 'l', 'o', 'u', 'r', 's'];
    assert(w@ =~= seq!['C', 'o', 'l', 'o', 'u', 'r', 's']);
    if same_chars(name, &w) {
        return Some(OsuHeader::Colours);
    }
    let w = vec!['H', 'i', 't', 'O', 'b', 'j', 'e', 'c', 't', 's'];
    assert(w@ =~= seq!['H', 'i', 't', 'O', 'b', 'j', 'e', 'c', 't', 's']);
    if same_chars(name, &w) {
        return Some(OsuHeader::HitObjects);
    }
    None
}

/// Whether the sections of this kind hold `Key: value` lines (otherwise they
/// hold comma-separated lists).
pub open spec fn is_kv_header(h: OsuHeader) -> bool {
    match h {
        OsuHeader::General | OsuHeader::Editor | OsuHeader::Metadata | OsuHeader::Difficulty
        | OsuHeader::Colours => true,
        _ => false,
    }
}

/// A section header at `p`: `[`, a run of ASCII letters and digits, `]` and a
/// line break. Gives the index after the line break and the name.
pub open spec fn section_header(t: Seq<char>, p: int) -> Option<(int, Seq<char>)> {
    if 0 <= p < t.len() && t[p] == '[' {
        let k = alnum_end(t, p + 1);
        if k > p + 1 && k < t.len() && t[k] == ']' {
            match newline_end(t, k + 1) {
                Some(q) => Some((q, t.subrange(p + 1, k))),
                None => None,
            }
        } else {
            None
        }
    } else {
        None
    }
}

/// The content of a section body: key-value pairs or rows of fields.
pub enum SectionModel {
    Pairs(Seq<(Seq<char>, Seq<char>)>),
    Rows(Seq<Seq<Seq<char>>>),
}

/// The content of a section body of kind `h`; `None` where the body is malformed.
pub open spec fn section_value(h: OsuHeader, body: Seq<char>) -> Option<SectionModel> {
    if is_kv_header(h) {
        match kv_section(body) {
            Some(p) => Some(SectionModel::Pairs(p)),
            None => None,
        }
    } else {
        match list_section(body) {
            Some(r) => Some(SectionModel::Rows(r)),
            None => None,
        }
    }
}

/// The General, Editor, Metadata, Difficulty and Colours sections hold
/// `Key: value` lines and are read as key-value pairs; the Events,
/// TimingPoints and HitObjects sections hold comma-separated lines and are
/// read as rows of fields.
pub proof fn lemma_section_kinds(h: OsuHeader, body: Seq<char>)
    ensures
        (h == OsuHeader::General || h == OsuHeader::Editor || h == OsuHeader::Metadata || h
            == OsuHeader::Difficulty || h == OsuHeader::Colours) ==> section_value(h, body) == (
        match kv_section(body) {
            Some(p) => Some(SectionModel::Pairs(p)),
            None => None,
        }),
        (h == OsuHeader::Events || h == OsuHeader::TimingPoints || h == OsuHeader::HitObjects)
            ==> section_value(h, body) == (match list_section(body) {
            Some(r) => Some(SectionModel::Rows(r)),
            None => None,
        }),
{
}

/// Why a beatmap text was not read.
#[derive(Clone, Copy, PartialEq, Eq, Structural, Debug)]
pub enum OsuError {
    /// The text does not start with a header line, blank space and a section.
    Syntax,
    /// A section header names no known section.
    UnknownSection,
    /// A section body holds no entry at its start, or ends in the middle of one.
    MalformedSection,
    /// The General, Metadata or HitObjects section is absent.
    MissingSection,
    /// A key the game reads is absent from its section.
    MissingKey,
    /// `AudioLeadIn` is not an unsigned integer.
    InvalidLeadIn,
    /// A hit object line is rejected (see `HitObject::from_fields`).
    InvalidHitObject,
}

/// The sections from `p` on, up to the first place that holds no header.
pub open spec fn sections_from(t: Seq<char>, p: int) -> Result<
    Seq<(OsuHeader, SectionModel)>,
    OsuError,
>
    decreases t.len() - p,
{
    match section_header(t, p) {
        None => Ok(Seq::empty()),
        Some((q, name)) => match header_of(name) {
            None => Err(OsuError::UnknownSection),
            Some(h) => {
                let b = bracket_at(t, q);
                match section_value(h, t.subrange(q, b)) {
                    None => Err(OsuError::MalformedSection),
                    Some(v) => if p < b <= t.len() {
                        match sections_from(t, b) {
                            Ok(rest) => Ok(seq![(h, v)] + rest),
                            Err(e) => Err(e),
                        }
                    } else {
                        Err(OsuError::MalformedSection)
                    },
                }
            },
        },
    }
}

/// The sections of a beatmap text: a first line, one or more blank
/// characters, then one or more sections, each a header and the body up to
/// the next `[`. Reading stops at the first place after a section that holds
/// no header.
pub open spec fn osu_sections(t: Seq<char>) -> Result<Seq<(OsuHeader, SectionModel)>, OsuError> {
    match line_end(t, 0) {
        None => Err(OsuError::Syntax),
        Some(j) => {
            let p = blank_end(t, j);
            if p == j || section_header(t, p) is None {
                Err(OsuError::Syntax)
            } else {
                sections_from(t, p)
            }
        },
    }
}

/// Where reading the sections from `p` on stops: the first place after a
/// section that holds no header (where `sections_from` succeeds).
pub open spec fn sections_stop(t: Seq<char>, p: int) -> int
    decreases t.len() - p,
{
    match section_header(t, p) {
        None => p,
        Some((q, name)) => {
            let b = bracket_at(t, q);
            if p < b <= t.len() {
                sections_stop(t, b)
            } else {
                p
            }
        },
    }
}

/// The first line of a beatmap text (its format version), without the line break.
pub open spec fn osu_first_line(t: Seq<char>) -> Seq<char> {
    match line_end(t, 0) {
        Some(j) => t.subrange(0, j),
        None => Seq::empty(),
    }
}

/// The index where reading a beatmap text stops: the text from there on is
/// not read.
pub open spec fn osu_stop(t: Seq<char>) -> int {
    match line_end(t, 0) {
        Some(j) => sections_stop(t, blank_end(t, j)),
        None => 0,
    }
}

/// Reading the text gives its sections or a syntax error: it meets no
/// section header that names no known section and no malformed section
/// body, the two faults on which the reader gives up.
pub open spec fn sections_readable(t: Seq<char>) -> bool {
    match osu_sections(t) {
        Ok(_) => true,
        Err(e) => e == OsuError::Syntax,
    }
}

/// A section's content as read from its body.
pub enum OsuValue {
    KV(Vec<(Vec<char>, Vec<char>)>),
    List(Vec<Vec<Vec<char>>>),
}

impl View for OsuValue {
    type V = SectionModel;

    open spec fn view(&self) -> SectionModel {
        match self {
            OsuValue::KV(p) => SectionModel::Pairs(p.deep_view()),
            OsuValue::List(r) => SectionModel::Rows(r.deep_view()),
        }
    }
}

/// Headers and models of read sections.
pub open spec fn sections_model(v: Seq<(OsuHeader, OsuValue)>) -> Seq<(OsuHeader, SectionModel)> {
    v.map_values(|x: (OsuHeader, OsuValue)| (x.0, x.1@))
}

/// A read beatmap text: its first line, its sections in order, and the
/// index where reading stopped.
pub struct OsuFile {
    pub version_line: Vec<char>,
    pub sections: Vec<(OsuHeader, OsuValue)>,
    pub rest: usize,
}

/// `Ok(a + r)` where `o` is `Ok(r)`.
pub open spec fn prepend_ok<T, E>(a: Seq<T>, o: Result<Seq<T>, E>) -> Result<Seq<T>, E> {
    match o {
        Ok(r) => Ok(a + r),
        Err(e) => Err(e),
    }
}

fn scan_section_header(t: &Vec<char>, p: usize) -> (r: Option<(usize, Vec<char>)>)
    requires
        p <= t.len(),
    ensures
        match section_header(t@, p as int) {
            Some((q, name)) => r matches Some((q2, n)) && q2 == q && n@ == name,
            None => r is None,
        },
        r matches Some((q, n)) ==> p < q <= t.len(),
{
    if p < t.len() && t[p] == '[' {
        let k = skip_alnums(t, p + 1);
        if k > p + 1 && k < t.len() && t[k] == ']' {
            match after_newline(t, k + 1) {
                Some(q) => Some((q, slice_of(t, p + 1, k))),
                None => None,
            }
        } else {
            None
        }
    } else {
        None
    }
}

fn section_content(h: OsuHeader, body: &Vec<char>) -> (r: Option<OsuValue>)
    ensures
        match section_value(h, body@) {
            Some(m) => r matches Some(v) && v@ == m,
            None => r is None,
        },
{
    match h {
        OsuHeader::General | OsuHeader::Editor | OsuHeader::Metadata | OsuHeader::Difficulty
        | OsuHeader::Colours => match parse_kv_section(body) {
            Some(p) => Some(OsuValue::KV(p)),
            None => None,
        },
        _ => match parse_list_section(body) {
            Some(r) => Some(OsuValue::List(r)),
            None => None,
        },
    }
}

/// A beatmap text read as far as it goes (see `osu_sections`,
/// `osu_first_line` and `osu_stop`), every fault given as an error.
pub fn read_sections(t: &Vec<char>) -> (r: Result<OsuFile, OsuError>)
    ensures
        match osu_sections(t@) {
            Ok(s) => r matches Ok(f) && sections_model(f.sections@) == s && f.version_line@
                == osu_first_line(t@) && f.rest == osu_stop(t@),
            Err(e) => r matches Err(e2) && e2 == e,
        },
{
    let j = match end_of_line(t, 0) {
        Some(j) => j,
        None => {
            return Err(OsuError::Syntax);
        },
    };
    let version_line = slice_of(t, 0, j);
    let mut p = skip_blanks(t, j);
    if p == j {
        return Err(OsuError::Syntax);
    }
    match scan_section_header(t, p) {
        None => {
            return Err(OsuError::Syntax);
        },
        Some(_) => {},
    }
    let mut acc: Vec<(OsuHeader, OsuValue)> = Vec::new();
    assert(sections_model(acc@) =~= Seq::<(OsuHeader, SectionModel)>::empty());
    assert(osu_sections(t@) == prepend_ok(sections_model(acc@), sections_from(t@, p as int))) by {
        assert(Seq::<(OsuHeader, SectionModel)>::empty() + sections_from(t@, p as int)->Ok_0
            =~= sections_from(t@, p as int)->Ok_0);
    }
    loop
        invariant
            p <= t.len(),
            osu_sections(t@) == prepend_ok(sections_model(acc@), sections_from(t@, p as int)),
            version_line@ == osu_first_line(t@),
            osu_stop(t@) == sections_stop(t@, p as int),
        decreases t.len() - p,
    {
        let ghost before = sections_model(acc@);
        match scan_section_header(t, p) {
            None => {
                assert(before + Seq::<(OsuHeader, SectionModel)>::empty() =~= before);
                return Ok(OsuFile { version_line, sections: acc, rest: p });
            },
            Some((q, name)) => {
                let h = match header_named(&name) {
                    Some(h) => h,
                    None => {
                        return Err(OsuError::UnknownSection);
                    },
                };
                let b = find_bracket(t, q);
                let body = slice_of(t, q, b);
                let value = match section_content(h, &body) {
                    Some(v) => v,
                    None => {
                        return Err(OsuError::MalformedSection);
                    },
                };
                let ghost vm = value@;
                acc.push((h, value));
                assert(sections_model(acc@) =~= before + seq![(h, vm)]);
                proof {
                    match sections_from(t@, b as int) {
                        Ok(rest) => {
                            assert(before + (seq![(h, vm)] + rest) =~= sections_model(acc@)
                                + rest);
                        },
                        Err(e) => {},
                    }
                }
                p = b;
            },
        }
    }
}

/// A beatmap text read as far as it goes: its first line, its sections and
/// the index where reading stopped (see `read_sections`), for a text that
/// names only known sections and whose section bodies are well formed. The
/// only error is `Syntax`.
pub fn parse_sections(t: &Vec<char>) -> (r: Result<OsuFile, OsuError>)
    requires
        sections_readable(t@),
    ensures
        match osu_sections(t@) {
            Ok(s) => r matches Ok(f) && sections_model(f.sections@) == s && f.version_line@
                == osu_first_line(t@) && f.rest == osu_stop(t@),
            Err(e) => r matches Err(e2) && e2 == e && e == OsuError::Syntax,
        },
{
    read_sections(t)
}

// ---------------------------------------------------------------------------
// Hit objects
// ---------------------------------------------------------------------------

/// The slider part of a hit object line.
#[derive(Clone, Debug)]
pub struct SliderParams {
    pub curve_type: CurveType,
    pub curve_points: Vec<Point>,
    pub slides: usize,
    /// The slider's length in osu!pixels as written in the beatmap: a literal
    /// that `f32`'s `FromStr` accepts.
    pub length: String,
}

/// A circle or slider of the `[HitObjects]` section.
#[derive(Clone, Debug)]
pub struct HitObject {
    pub position: Point,
    /// Time in integer milliseconds.
    pub time: usize,
    pub type_bitmask: u8,
    pub hit_sound: u8,
    pub object_params: Option<SliderParams>,
    pub hit_sample: Option<Vec<u8>>,
}

pub struct SliderModel {
    pub curve_type: CurveType,
    pub curve_points: Seq<Point>,
    pub slides: usize,
    pub length: Seq<char>,
}

pub struct HitObjectModel {
    pub position: Point,
    pub time: usize,
    pub type_bitmask: u8,
    pub hit_sound: u8,
    pub object_params: Option<SliderModel>,
    pub hit_sample: Option<Seq<u8>>,
}

impl View for SliderParams {
    type V = SliderModel;

    open spec fn view(&self) -> SliderModel {
        SliderModel {
            curve_type: self.curve_type,
            curve_points: self.curve_points@,
            slides: self.slides,
            length: self.length@,
        }
    }
}

impl View for HitObject {
    type V = HitObjectModel;

    open spec fn view(&self) -> HitObjectModel {
        HitObjectModel {
            position: self.position,
            time: self.time,
            type_bitmask: self.type_bitmask,
            hit_sound: self.hit_sound,
            object_params: match self.object_params {
                Some(p) => Some(p@),
                None => None,
            },
            hit_sample: match self.hit_sample {
                Some(v) => Some(v@),
                None => None,
            },
        }
    }
}

/// The curve type a letter names.
pub open spec fn curve_letter(c: char) -> Option<CurveType> {
    if c == 'B' {
        Some(CurveType::Bezier)
    } else if c == 'C' {
        Some(CurveType::CentripetalCatmullRom)
    } else if c == 'L' {
        Some(CurveType::Linear)
    } else if c == 'P' {
        Some(CurveType::PerfectCircle)
    } else {
        None
    }
}

impl CurveType {
    /// The curve type written as `value`: `B`, `C`, `L` or `P`.
    pub fn try_from(value: char) -> (r: Result<CurveType, ()>)
        ensures
            match curve_letter(value) {
                Some(c) => r == Ok::<CurveType, ()>(c),
                None => r is Err,
            },
    {
        if value == 'B' {
            Ok(CurveType::Bezier)
        } else if value == 'C' {
            Ok(CurveType::CentripetalCatmullRom)
        } else if value == 'L' {
            Ok(CurveType::Linear)
        } else if value == 'P' {
            Ok(CurveType::PerfectCircle)
        } else {
            Err(())
        }
    }
}

/// One curve point at `p`: blanks, a decimal float, blanks, `:`, blanks, a
/// decimal float. Gives the end and the bounds of the two numbers; `Stop`
/// where it does not match, `Short` where a number's exponent has no digits.
pub open spec fn point_scan(t: Seq<char>, p: int) -> Scan<(int, int, int, int)> {
    let a = blank_end(t, p);
    match float_scan(t, a) {
        FloatScan::Found(xe) => {
            let b = blank_end(t, xe as int);
            if b < t.len() && t[b] == ':' {
                let c = blank_end(t, b + 1);
                match float_scan(t, c) {
                    FloatScan::Found(ye) => Scan::Done(ye as int, (a, xe as int, c, ye as int)),
                    FloatScan::NoMatch => Scan::Stop,
                    FloatScan::Cut => Scan::Short,
                }
            } else {
                Scan::Stop
            }
        },
        FloatScan::NoMatch => Scan::Stop,
        FloatScan::Cut => Scan::Short,
    }
}

/// The texts of the points after the one that ends at `p`, each one after a
/// `|`. The list ends before a `|` that no point follows; it is `None` where
/// a point's exponent has no digits.
pub open spec fn more_points(t: Seq<char>, p: int) -> Option<Seq<(Seq<char>, Seq<char>)>>
    decreases t.len() - p,
{
    if 0 <= p < t.len() && t[p] == '|' {
        match point_scan(t, p + 1) {
            Scan::Done(e, (xa, xe, ya, ye)) => if p < e <= t.len() {
                prepend(seq![(t.subrange(xa, xe), t.subrange(ya, ye))], more_points(t, e))
            } else {
                None
            },
            Scan::Stop => Some(Seq::empty()),
            Scan::Short => None,
        }
    } else {
        Some(Seq::empty())
    }
}

/// The curve field of a slider: blanks, a curve letter, `|`, and one or more
/// `|`-separated points. Characters after the last point are ignored.
pub open spec fn curve_field(t: Seq<char>) -> Option<(CurveType, Seq<(Seq<char>, Seq<char>)>)> {
    let i = blank_end(t, 0);
    if i + 1 < t.len() && curve_letter(t[i]) is Some && t[i + 1] == '|' {
        match point_scan(t, i + 2) {
            Scan::Done(e, (xa, xe, ya, ye)) => match prepend(
                seq![(t.subrange(xa, xe), t.subrange(ya, ye))],
                more_points(t, e),
            ) {
                Some(pts) => Some((curve_letter(t[i])->Some_0, pts)),
                None => None,
            },
            _ => None,
        }
    } else {
        None
    }
}

/// The points that point texts spell, each coordinate an `i32`; `None` where one does not.
pub open spec fn points_of(texts: Seq<(Seq<char>, Seq<char>)>) -> Option<Seq<Point>>
    decreases texts.len(),
{
    if texts.len() == 0 {
        Some(Seq::empty())
    } else {
        match (parse_i32(texts[0].0), parse_i32(texts[0].1), points_of(texts.drop_first())) {
            (Some(x), Some(y), Some(rest)) => Some(
                seq![Point { x: x as i32, y: y as i32 }] + rest,
            ),
            _ => None,
        }
    }
}

/// The slider fields `r` (the fields after the fifth of a hit object line):
/// the curve field, the slide count (`usize`) and the length (an `f32`
/// literal). `None` where one is absent or malformed.
pub open spec fn slider_model(r: Seq<Seq<char>>) -> Option<SliderModel> {
    if r.len() < 3 {
        None
    } else {
        match (curve_field(r[0]), parse_usize(r[1])) {
            (Some((ct, texts)), Some(slides)) => if is_f32_text(r[2]) {
                match points_of(texts) {
                    Some(pts) => Some(
                        SliderModel {
                            curve_type: ct,
                            curve_points: pts,
                            slides: slides as usize,
                            length: r[2],
                        },
                    ),
                    None => None,
                }
            } else {
                None
            },
            _ => None,
        }
    }
}

/// Why a hit object line was rejected.
#[derive(Clone, Copy, PartialEq, Eq, Structural, Debug)]
pub enum HitObjectError {
    /// One of the five leading fields is not a number of its type.
    InvalidNumber,
    /// The line has fewer fields than are read.
    MissingField,
    /// The object is a slider and its slider fields are absent or malformed.
    InvalidSlider,
}

/// The integer in field `k` of `f`, in `lo..=hi`.
pub open spec fn number_field(f: Seq<Seq<char>>, k: int, signed: bool, lo: int, hi: int) -> Result<
    int,
    HitObjectError,
> {
    if f.len() <= k {
        Err(HitObjectError::MissingField)
    } else {
        match parse_int(f[k], signed, lo, hi) {
            Some(v) => Ok(v),
            None => Err(HitObjectError::InvalidNumber),
        }
    }
}

/// Whether the type bitmask marks a slider (bit 1).
pub open spec fn is_slider_type(type_bitmask: u8) -> bool {
    (type_bitmask / 2) % 2 == 1
}

/// The hit object that the fields `f` of a `[HitObjects]` line describe:
/// `x`, `y` (`i32`), time (`usize`), type bitmask and hit sound (`u8`), read
/// in this order, each one only where the ones before it were read; then,
/// for a slider, the slider fields.
pub open spec fn hit_object_model(f: Seq<Seq<char>>) -> Result<HitObjectModel, HitObjectError> {
    match number_field(f, 0, true, i32::MIN as int, i32::MAX as int) {
        Err(e) => Err(e),
        Ok(x) => match number_field(f, 1, true, i32::MIN as int, i32::MAX as int) {
            Err(e) => Err(e),
            Ok(y) => match number_field(f, 2, false, 0, usize::MAX as int) {
                Err(e) => Err(e),
                Ok(time) => match number_field(f, 3, false, 0, 255) {
                    Err(e) => Err(e),
                    Ok(tb) => match number_field(f, 4, false, 0, 255) {
                        Err(e) => Err(e),
                        Ok(hs) => {
                            let params = if is_slider_type(tb as u8) {
                                slider_model(f.skip(5))
                            } else {
                                None
                            };
                            if is_slider_type(tb as u8) && params is None {
                                Err(HitObjectError::InvalidSlider)
                            } else {
                                Ok(
                                    HitObjectModel {
                                        position: Point { x: x as i32, y: y as i32 },
                                        time: time as usize,
                                        type_bitmask: tb as u8,
                                        hit_sound: hs as u8,
                                        object_params: params,
                                        hit_sample: None,
                                    },
                                )
                            }
                        },
                    },
                },
            },
        },
    }
}

pub proof fn lemma_point_scan(t: Seq<char>, p: int)
    requires
        0 <= p <= t.len() <= usize::MAX,
    ensures
        point_scan(t, p) matches Scan::Done(e, (xa, xe, ya, ye)) ==> p <= xa <= xe <= ya <= ye
            == e <= t.len() && p < e,
{
    lemma_blank_end(t, p);
    let a = blank_end(t, p);
    lemma_float_scan(t, a);
    if let FloatScan::Found(xe) = float_scan(t, a) {
        lemma_blank_end(t, xe as int);
        let b = blank_end(t, xe as int);
        if b < t.len() && t[b] == ':' {
            lemma_blank_end(t, b + 1);
            lemma_float_scan(t, blank_end(t, b + 1));
        }
    }
}

fn scan_point(t: &Vec<char>, p: usize) -> (r: Step<(usize, usize, usize, usize)>)
    requires
        p <= t.len(),
    ensures
        match point_scan(t@, p as int) {
            Scan::Done(e, (xa, xe, ya, ye)) => r matches Step::Done(e2, (xa2, xe2, ya2, ye2))
                && e2 == e && xa2 == xa && xe2 == xe && ya2 == ya && ye2 == ye,
            Scan::Stop => r is Stop,
            Scan::Short => r is Short,
        },
        r matches Step::Done(e, (xa, xe, ya, ye)) ==> p <= xa <= xe <= ya <= ye == e <= t.len()
            && p < e,
{
    proof {
        lemma_point_scan(t@, p as int);
    }
    let a = skip_blanks(t, p);
    match scan_float(t, a) {
        FloatScan::Found(xe) => {
            proof {
                lemma_float_scan(t@, a as int);
            }
            let b = skip_blanks(t, xe);
            if b < t.len() && t[b] == ':' {
                let c = skip_blanks(t, b + 1);
                match scan_float(t, c) {
                    FloatScan::Found(ye) => Step::Done(ye, (a, xe, c, ye)),
                    FloatScan::NoMatch => Step::Stop,
                    FloatScan::Cut => Step::Short,
                }
            } else {
                Step::Stop
            }
        },
        FloatScan::NoMatch => Step::Stop,
        FloatScan::Cut => Step::Short,
    }
}

/// The curve field of a slider (see `curve_field`).
fn parse_curve_field(t: &Vec<char>) -> (r: Option<(CurveType, Vec<(Vec<char>, Vec<char>)>)>)
    ensures
        match curve_field(t@) {
            Some((ct, texts)) => r matches Some((c, v)) && c == ct && v.deep_view() == texts,
            None => r is None,
        },
{
    let i = skip_blanks(t, 0);
    if !(i < t.len() && i + 1 < t.len()) {
        return None;
    }
    let ct = match CurveType::try_from(t[i]) {
        Ok(c) => c,
        Err(_) => {
            return None;
        },
    };
    if t[i + 1] != '|' {
        return None;
    }
    let mut acc: Vec<(Vec<char>, Vec<char>)> = Vec::new();
    let mut p: usize;
    match scan_point(t, i + 2) {
        Step::Done(e, (xa, xe, ya, ye)) => {
            let x = slice_of(t, xa, xe);
            let y = slice_of(t, ya, ye);
            proof {
                lemma_chars_deep_view(x);
                lemma_chars_deep_view(y);
            }
            acc.push((x, y));
            p = e;
        },
        _ => {
            return None;
        },
    }
    assert(acc.deep_view() =~= seq![acc.deep_view()[0]]);
    while p < t.len() && t[p] == '|'
        invariant
            p <= t.len(),
            curve_field(t@) == (match prepend(acc.deep_view(), more_points(t@, p as int)) {
                Some(pts) => Some((ct, pts)),
                None => None::<(CurveType, Seq<(Seq<char>, Seq<char>)>)>,
            }),
        decreases t.len() - p,
    {
        let ghost before = acc.deep_view();
        let next: usize = p + 1;
        match scan_point(t, next) {
            Step::Done(e, (xa, xe, ya, ye)) => {
                let x = slice_of(t, xa, xe);
                let y = slice_of(t, ya, ye);
                proof {
                    lemma_chars_deep_view(x);
                    lemma_chars_deep_view(y);
                }
                let ghost item = (x@, y@);
                acc.push((x, y));
                assert(acc.deep_view() =~= before + seq![item]);
                proof {
                    lemma_prepend_assoc(before, seq![item], more_points(t@, e as int));
                }
                p = e;
            },
            Step::Stop => {
                proof {
                    lemma_prepend_empty(before);
                }
                return Some((ct, acc));
            },
            Step::Short => {
                return None;
            },
        }
    }
    proof {
        lemma_prepend_empty(acc.deep_view());
    }
    Some((ct, acc))
}

/// The points that the texts spell (see `points_of`).
fn points_from(texts: &Vec<(Vec<char>, Vec<char>)>) -> (r: Option<Vec<Point>>)
    ensures
        match points_of(texts.deep_view()) {
            Some(pts) => r matches Some(v) && v@ == pts,
            None => r is None,
        },
{
    let mut out: Vec<Point> = Vec::new();
    let mut k: usize = 0;
    let ghost all = texts.deep_view();
    assert(all.skip(0) =~= all);
    while k < texts.len()
        invariant
            k <= texts.len(),
            all == texts.deep_view(),
            points_of(all) == (match points_of(all.skip(k as int)) {
                Some(rest) => Some(out@ + rest),
                None => None,
            }),
        decreases texts.len() - k,
    {
        let ghost tail = all.skip(k as int);
        assert(tail.drop_first() =~= all.skip(k + 1));
        let (xs, ys) = &texts[k];
        proof {
            lemma_chars_deep_view(*xs);
            lemma_chars_deep_view(*ys);
            assert(tail[0] == all[k as int]);
        }
        let x = match to_i32(xs) {
            Some(x) => x,
            None => {
                return None;
            },
        };
        let y = match to_i32(ys) {
            Some(y) => y,
            None => {
                return None;
            },
        };
        let ghost before = out@;
        out.push(Point { x, y });
        proof {
            match points_of(all.skip(k + 1)) {
                Some(rest) => {
                    assert(before + (seq![Point { x, y }] + rest) =~= out@ + rest);
                },
                None => {},
            }
        }
        k = k + 1;
    }
    assert(all.skip(k as int) =~= Seq::<(Seq<char>, Seq<char>)>::empty());
    assert(out@ + Seq::<Point>::empty() =~= out@);
    Some(out)
}

/// The slider fields of a hit object line (see `slider_model`).
fn slider_from_fields(f: &Vec<Vec<char>>, start: usize) -> (r: Option<SliderParams>)
    requires
        start <= f.len(),
    ensures
        match slider_model(f.deep_view().skip(start as int)) {
            Some(m) => r matches Some(p) && p@ == m,
            None => r is None,
        },
{
    let ghost rs = f.deep_view().skip(start as int);
    if f.len() - start < 3 {
        return None;
    }
    proof {
        lemma_chars_deep_view(f@[start as int]);
        lemma_chars_deep_view(f@[start + 1]);
        lemma_chars_deep_view(f@[start + 2]);
        assert(rs[0] == f@[start as int]@);
        assert(rs[1] == f@[start + 1]@);
        assert(rs[2] == f@[start + 2]@);
    }
    let (ct, texts) = match parse_curve_field(&f[start]) {
        Some(c) => c,
        None => {
            return None;
        },
    };
    let slides = match to_usize(&f[start + 1]) {
        Some(s) => s,
        None => {
            return None;
        },
    };
    if !f32_text(&f[start + 2]) {
        return None;
    }
    let pts = match points_from(&texts) {
        Some(p) => p,
        None => {
            return None;
        },
    };
    let length = string_of(&f[start + 2], 0, f[start + 2].len());
    assert(f@[start + 2]@.subrange(0, f@[start + 2]@.len() as int) =~= f@[start + 2]@);
    Some(SliderParams { curve_type: ct, curve_points: pts, slides, length })
}

fn number_in_field(f: &Vec<Vec<char>>, k: usize, kind: u8) -> (r: Result<i128, HitObjectError>)
    requires
        kind < 3,
    ensures
        ({
            let m = if kind == 0 {
                number_field(f.deep_view(), k as int, true, i32::MIN as int, i32::MAX as int)
            } else if kind == 1 {
                number_field(f.deep_view(), k as int, false, 0, usize::MAX as int)
            } else {
                number_field(f.deep_view(), k as int, false, 0, 255)
            };
            match m {
                Ok(v) => r matches Ok(w) && w == v,
                Err(e) => r == Err::<i128, HitObjectError>(e),
            }
        }),
{
    if f.len() <= k {
        return Err(HitObjectError::MissingField);
    }
    proof {
        lemma_chars_deep_view(f@[k as int]);
    }
    if kind == 0 {
        match to_i32(&f[k]) {
            Some(v) => Ok(v as i128),
            None => Err(HitObjectError::InvalidNumber),
        }
    } else if kind == 1 {
        match to_usize(&f[k]) {
            Some(v) => Ok(v as i128),
            None => Err(HitObjectError::InvalidNumber),
        }
    } else {
        match to_u8(&f[k]) {
            Some(v) => Ok(v as i128),
            None => Err(HitObjectError::InvalidNumber),
        }
    }
}

/// A hit object line carries slider fields exactly when bit 1 (value 2) of
/// its type bitmask is set: a read hit object has slider parameters exactly
/// when that bit of its type bitmask is set, its type bitmask is the fourth
/// field read as a `u8`, and a line is refused for its slider fields only
/// when that field reads as a bitmask with bit 1 set.
pub proof fn lemma_slider_exactly_when_bit_one(f: Seq<Seq<char>>)
    ensures
        hit_object_model(f) matches Ok(m) ==> (m.object_params is Some <==> (m.type_bitmask
            >> 1u8) & 1u8 == 1u8),
        hit_object_model(f) matches Ok(m) ==> f.len() >= 5 && parse_u8(f[3]) == Some(
            m.type_bitmask as int,
        ),
        hit_object_model(f) matches Err(HitObjectError::InvalidSlider) ==> f.len() >= 5 && (
        parse_u8(f[3]) matches Some(t) && ((t as u8) >> 1u8) & 1u8 == 1u8),
{
    assert(forall|t: u8| #![auto] ((t >> 1u8) & 1u8 == 1u8) == ((t / 2) % 2 == 1)) by (bit_vector);
}

/// The line's fields give a hit object or a number that does not parse: it
/// has the five leading fields, and a slider's slider fields are well formed.
pub open spec fn hit_object_line_complete(f: Seq<Seq<char>>) -> bool {
    match hit_object_model(f) {
        Ok(_) => true,
        Err(e) => e == HitObjectError::InvalidNumber,
    }
}

impl HitObject {
    /// The hit object that the fields of a `[HitObjects]` line describe (see `hit_object_model`).
    pub fn from_fields(f: &Vec<Vec<char>>) -> (r: Result<HitObject, HitObjectError>)
        ensures
            match hit_object_model(f.deep_view()) {
                Ok(m) => r matches Ok(h) && h@ == m,
                Err(e) => r matches Err(e2) && e2 == e,
            },
    {
        let x = number_in_field(f, 0, 0)?;
        let y = number_in_field(f, 1, 0)?;
        let time = number_in_field(f, 2, 1)?;
        let type_bitmask = number_in_field(f, 3, 2)?;
        let hit_sound = number_in_field(f, 4, 2)?;
        let tb = type_bitmask as u8;
        let object_params = if (tb / 2) % 2 == 1 {
            match slider_from_fields(f, 5) {
                Some(p) => Some(p),
                None => {
                    return Err(HitObjectError::InvalidSlider);
                },
            }
        } else {
            None
        };
        Ok(HitObject {
            position: Point { x: x as i32, y: y as i32 },
            time: time as usize,
            type_bitmask: tb,
            hit_sound: hit_sound as u8,
            object_params,
            hit_sample: None,
        })
    }

    /// The hit object that the fields of a `[HitObjects]` line describe (see
    /// `hit_object_model`), for a line that has the five leading fields and,
    /// where it is a slider, well-formed slider fields. The only error is
    /// `InvalidNumber`.
    pub fn try_from(s: &[&str]) -> (r: Result<HitObject, HitObjectError>)
        requires
            hit_object_line_complete(s@.map_values(|x: &str| x@)),
        ensures
            match hit_object_model(s@.map_values(|x: &str| x@)) {
                Ok(m) => r matches Ok(h) && h@ == m,
                Err(e) => r matches Err(e2) && e2 == e,
            },
    {
        let mut f: Vec<Vec<char>> = Vec::new();
        let mut k: usize = 0;
        while k < s.len()
            invariant
                k <= s.len(),
                f.deep_view() == s@.map_values(|x: &str| x@).take(k as int),
            decreases s.len() - k,
        {
            let c = chars_of(s[k]);
            proof {
                lemma_chars_deep_view(c);
            }
            let ghost before = f.deep_view();
            f.push(c);
            assert(f.deep_view() =~= before.push(s@[k as int]@));
            assert(s@.map_values(|x: &str| x@).take(k + 1) =~= s@.map_values(|x: &str| x@).take(
                k as int,
            ).push(s@[k as int]@));
            k = k + 1;
        }
        assert(s@.map_values(|x: &str| x@).take(k as int) =~= s@.map_values(|x: &str| x@));
        HitObject::from_fields(&f)
    }
}

// ---------------------------------------------------------------------------
// Beatmaps
// ---------------------------------------------------------------------------

/// `std::path::PathBuf`, carried through as the path a beatmap was read from.
#[verifier::external_type_specification]
#[verifier::external_body]
pub struct ExPathBuf(std::path::PathBuf);

/// A beatmap: where it was read from, and what the game reads of it.
pub struct BeatMapOsu {
    pub beat_map_path: PathBuf,
    pub general: General,
    pub metadata: Metadata,
    pub hit_objects: Vec<HitObject>,
}

pub struct BeatMapModel {
    pub audio_filename: Seq<char>,
    pub audio_lead_in: usize,
    pub title: Seq<char>,
    pub version: Seq<char>,
    pub hit_objects: Seq<HitObjectModel>,
}

impl View for BeatMapOsu {
    type V = BeatMapModel;

    open spec fn view(&self) -> BeatMapModel {
        BeatMapModel {
            audio_filename: self.general.audio_filename@,
            audio_lead_in: self.general.audio_lead_in,
            title: self.metadata.title@,
            version: self.metadata.version@,
            hit_objects: self.hit_objects@.map_values(|h: HitObject| h@),
        }
    }
}

/// The content of the last section of kind `h`.
pub open spec fn section_lookup(s: Seq<(OsuHeader, SectionModel)>, h: OsuHeader) -> Option<
    SectionModel,
>
    decreases s.len(),
{
    if s.len() == 0 {
        None
    } else if s.last().0 == h {
        Some(s.last().1)
    } else {
        section_lookup(s.drop_last(), h)
    }
}

/// The value of the last pair with key `key`.
pub open spec fn key_lookup(p: Seq<(Seq<char>, Seq<char>)>, key: Seq<char>) -> Option<Seq<char>>
    decreases p.len(),
{
    if p.len() == 0 {
        None
    } else if p.last().0 == key {
        Some(p.last().1)
    } else {
        key_lookup(p.drop_last(), key)
    }
}

/// The pairs of a key-value section.
pub open spec fn pairs_of(o: Option<SectionModel>) -> Option<Seq<(Seq<char>, Seq<char>)>> {
    match o {
        Some(SectionModel::Pairs(p)) => Some(p),
        _ => None,
    }
}

/// The rows of a list section.
pub open spec fn rows_of(o: Option<SectionModel>) -> Option<Seq<Seq<Seq<char>>>> {
    match o {
        Some(SectionModel::Rows(r)) => Some(r),
        _ => None,
    }
}

/// The hit objects of the rows, in order; `InvalidHitObject` where a row is rejected.
pub open spec fn hit_objects_model(rows: Seq<Seq<Seq<char>>>) -> Result<
    Seq<HitObjectModel>,
    OsuError,
>
    decreases rows.len(),
{
    if rows.len() == 0 {
        Ok(Seq::empty())
    } else {
        match hit_object_model(rows[0]) {
            Err(_) => Err(OsuError::InvalidHitObject),
            Ok(h) => prepend_ok(seq![h], hit_objects_model(rows.drop_first())),
        }
    }
}

pub open spec fn key_audio_filename() -> Seq<char> {
    seq!['A', 'u', 'd', 'i', 'o', 'F', 'i', 'l', 'e', 'n', 'a', 'm', 'e']
}

pub open spec fn key_audio_lead_in() -> Seq<char> {
    seq!['A', 'u', 'd', 'i', 'o', 'L', 'e', 'a', 'd', 'I', 'n']
}

pub open spec fn key_title() -> Seq<char> {
    seq!['T', 'i', 't', 'l', 'e']
}

pub open spec fn key_version() -> Seq<char> {
    seq!['V', 'e', 'r', 's', 'i', 'o', 'n']
}

/// What the game reads of a beatmap text: the sections (see `osu_sections`);
/// the last General, Metadata and HitObjects sections; in General the last
/// `AudioFilename` and `AudioLeadIn` (a `usize`), in Metadata the last
/// `Title` and `Version`; and the hit object of each HitObjects row. Each
/// step is taken only where the ones before it succeeded.
pub open spec fn beat_map_model(t: Seq<char>) -> Result<BeatMapModel, OsuError> {
    match osu_sections(t) {
        Err(e) => Err(e),
        Ok(secs) => match (
            pairs_of(section_lookup(secs, OsuHeader::General)),
            pairs_of(section_lookup(secs, OsuHeader::Metadata)),
            rows_of(section_lookup(secs, OsuHeader::HitObjects)),
        ) {
            (Some(g), Some(m), Some(h)) => match (
                key_lookup(g, key_audio_filename()),
                key_lookup(g, key_audio_lead_in()),
            ) {
                (Some(af), Some(lt)) => match parse_usize(lt) {
                    None => Err(OsuError::InvalidLeadIn),
                    Some(lead_in) => match (key_lookup(m, key_title()), key_lookup(m, key_version())) {
                        (Some(title), Some(version)) => match hit_objects_model(h) {
                            Ok(hs) => Ok(
                                BeatMapModel {
                                    audio_filename: af,
                                    audio_lead_in: lead_in as usize,
                                    title,
                                    version,
                                    hit_objects: hs,
                                },
                            ),
                            Err(e) => Err(e),
                        },
                        _ => Err(OsuError::MissingKey),
                    },
                },
                _ => Err(OsuError::MissingKey),
            },
            _ => Err(OsuError::MissingSection),
        },
    }
}

fn find_section<'a>(secs: &'a Vec<(OsuHeader, OsuValue)>, h: OsuHeader) -> (r: Option<&'a OsuValue>)
    ensures
        match section_lookup(sections_model(secs@), h) {
            Some(m) => r matches Some(v) && v@ == m,
            None => r is None,
        },
{
    let mut k = secs.len();
    assert(secs@.take(k as int) =~= secs@);
    while k > 0
        invariant
            k <= secs.len(),
            section_lookup(sections_model(secs@), h) == section_lookup(
                sections_model(secs@.take(k as int)),
                h,
            ),
        decreases k,
    {
        let ghost pre = sections_model(secs@.take(k as int));
        assert(pre.drop_last() =~= sections_model(secs@.take(k - 1)));
        if secs[k - 1].0 == h {
            return Some(&secs[k - 1].1);
        }
        k = k - 1;
    }
    None
}

fn find_key<'a>(pairs: &'a Vec<(Vec<char>, Vec<char>)>, key: &Vec<char>) -> (r: Option<&'a Vec<char>>)
    ensures
        match key_lookup(pairs.deep_view(), key@) {
            Some(v) => r matches Some(w) && w@ == v,
            None => r is None,
        },
{
    let mut k = pairs.len();
    assert(pairs.deep_view().take(k as int) =~= pairs.deep_view());
    while k > 0
        invariant
            k <= pairs.len(),
            key_lookup(pairs.deep_view(), key@) == key_lookup(pairs.deep_view().take(k as int), key@),
        decreases k,
    {
        let ghost pre = pairs.deep_view().take(k as int);
        assert(pre.drop_last() =~= pairs.deep_view().take(k - 1));
        proof {
            lemma_chars_deep_view(pairs@[k - 1].0);
            lemma_chars_deep_view(pairs@[k - 1].1);
        }
        if same_chars(&pairs[k - 1].0, key) {
            return Some(&pairs[k - 1].1);
        }
        k = k - 1;
    }
    None
}

fn hit_objects_from(rows: &Vec<Vec<Vec<char>>>) -> (r: Result<Vec<HitObject>, OsuError>)
    ensures
        match hit_objects_model(rows.deep_view()) {
            Ok(hs) => r matches Ok(v) && v@.map_values(|h: HitObject| h@) == hs,
            Err(e) => r == Err::<Vec<HitObject>, OsuError>(e),
        },
{
    let mut out: Vec<HitObject> = Vec::new();
    let mut k: usize = 0;
    let ghost all = rows.deep_view();
    assert(all.skip(0) =~= all);
    while k < rows.len()
        invariant
            k <= rows.len(),
            all == rows.deep_view(),
            hit_objects_model(all) == prepend_ok(
                out@.map_values(|h: HitObject| h@),
                hit_objects_model(all.skip(k as int)),
            ),
        decreases rows.len() - k,
    {
        let ghost tail = all.skip(k as int);
        assert(tail.drop_first() =~= all.skip(k + 1));
        assert(tail[0] == rows@[k as int].deep_view());
        let h = match HitObject::from_fields(&rows[k]) {
            Ok(h) => h,
            Err(_) => {
                return Err(OsuError::InvalidHitObject);
            },
        };
        let ghost before = out@.map_values(|h: HitObject| h@);
        let ghost hv = h@;
        out.push(h);
        assert(out@.map_values(|h: HitObject| h@) =~= before + seq![hv]);
        proof {
            match hit_objects_model(all.skip(k + 1)) {
                Ok(rest) => {
                    assert(before + (seq![hv] + rest) =~= (before + seq![hv]) + rest);
                },
                Err(e) => {},
            }
        }
        k = k + 1;
    }
    assert(all.skip(k as int) =~= Seq::<Seq<Seq<char>>>::empty());
    assert(out@.map_values(|h: HitObject| h@) + Seq::<HitObjectModel>::empty() =~= out@.map_values(
        |h: HitObject| h@,
    ));
    Ok(out)
}

/// Reading the text gives a beatmap or a syntax error: every section is
/// known and well formed, the General, Metadata and HitObjects sections and
/// the keys the game reads are there, `AudioLeadIn` is an unsigned integer
/// and every hit object line is accepted.
pub open spec fn beat_map_readable(t: Seq<char>) -> bool {
    match beat_map_model(t) {
        Ok(_) => true,
        Err(e) => e == OsuError::Syntax,
    }
}

impl BeatMapOsu {
    /// Reads the beatmap text `contents`, read from `beat_map_path` (see
    /// `beat_map_model`), for a text on which reading gives a beatmap or a
    /// syntax error. The only error is `Syntax`.
    pub fn new(beat_map_path: PathBuf, contents: &str) -> (r: Result<BeatMapOsu, OsuError>)
        requires
            beat_map_readable(contents@),
        ensures
            match beat_map_model(contents@) {
                Ok(m) => r matches Ok(b) && b@ == m && b.beat_map_path == beat_map_path,
                Err(e) => r matches Err(e2) && e2 == e && e == OsuError::Syntax,
            },
    {
        BeatMapOsu::read(beat_map_path, contents)
    }

    /// Reads the beatmap text `contents`, read from `beat_map_path` (see
    /// `beat_map_model`), every fault given as an error.
    pub fn read(beat_map_path: PathBuf, contents: &str) -> (r: Result<BeatMapOsu, OsuError>)
        ensures
            match beat_map_model(contents@) {
                Ok(m) => r matches Ok(b) && b@ == m && b.beat_map_path == beat_map_path,
                Err(e) => r matches Err(e2) && e2 == e,
            },
    {
        let t = chars_of(contents);
        let secs = read_sections(&t)?.sections;
        let g = match find_section(&secs, OsuHeader::General) {
            Some(OsuValue::KV(p)) => p,
            _ => {
                return Err(OsuError::MissingSection);
            },
        };
        let m = match find_section(&secs, OsuHeader::Metadata) {
            Some(OsuValue::KV(p)) => p,
            _ => {
                return Err(OsuError::MissingSection);
            },
        };
        let h = match find_section(&secs, OsuHeader::HitObjects) {
            Some(OsuValue::List(r)) => r,
            _ => {
                return Err(OsuError::MissingSection);
            },
        };
        let k_af = vec!['A', 'u', 'd', 'i', 'o', 'F', 'i', 'l', 'e', 'n', 'a', 'm', 'e'];
        let k_li = vec!['A', 'u', 'd', 'i', 'o', 'L', 'e', 'a', 'd', 'I', 'n'];
        let k_title = vec!['T', 'i', 't', 'l', 'e'];
        let k_version = vec!['V', 'e', 'r', 's', 'i', 'o', 'n'];
        assert(k_af@ =~= key_audio_filename());
        assert(k_li@ =~= key_audio_lead_in());
        assert(k_title@ =~= key_title());
        assert(k_version@ =~= key_version());
        let af = match find_key(g, &k_af) {
            Some(v) => v,
            None => {
                return Err(OsuError::MissingKey);
            },
        };
        let lt = match find_key(g, &k_li) {
            Some(v) => v,
            None => {
                return Err(OsuError::MissingKey);
            },
        };
        let lead_in = match to_usize(lt) {
            Some(v) => v,
            None => {
                return Err(OsuError::InvalidLeadIn);
            },
        };
        let title = match find_key(m, &k_title) {
            Some(v) => v,
            None => {
                return Err(OsuError::MissingKey);
            },
        };
        let version = match find_key(m, &k_version) {
            Some(v) => v,
            None => {
                return Err(OsuError::MissingKey);
            },
        };
        let hit_objects = hit_objects_from(h)?;
        assert(af@.subrange(0, af@.len() as int) =~= af@);
        assert(title@.subrange(0, title@.len() as int) =~= title@);
        assert(version@.subrange(0, version@.len() as int) =~= version@);
        Ok(BeatMapOsu {
            beat_map_path,
            general: General {
                audio_filename: string_of(af, 0, af.len()),
                audio_lead_in: lead_in,
            },
            metadata: Metadata {
                title: string_of(title, 0, title.len()),
                version: string_of(version, 0, version.len()),
            },
            hit_objects,
        })
    }
}

} // verus!
