//! The status-output parser.
//!
//! The input is the line-oriented text a display-configuration tool
//! prints about its outputs. A line describes a connected display when
//! it contains, anywhere in the line, an identifier of the shape
//! `<word>-<word>-<digits>` followed immediately by the marker
//! `" connected"`, and also, anywhere in the line, a resolution token
//! `<digits>x<digits>`. The first such line, scanned top to bottom,
//! wins; on each line the leftmost occurrence of each pattern is the one
//! paired. A resolution whose numbers do not fit in `u32` disqualifies
//! its line, and scanning continues.

use vstd::prelude::*;
use crate::scan::{
    digit_run_end,
    digit_run_end_exec,
    digits_value,
    lemma_digit_run_end,
    parse_u32_digits,
    word_run_end,
    word_run_end_exec,
};

verus! {

/// Failure of the status parser: no line holds both a connected-display
/// identifier and a resolution token with numbers that fit.
#[derive(Debug)]
pub enum ParseError {
    NoConnectedDisplay,
}

impl ParseError {
    /// A human-readable description of the failure.
    pub fn message(&self) -> (r: &'static str)
        ensures
            r@ == "Failed to find connected display"@,
    {
        "Failed to find connected display"
    }
}

/// The literal marker `" connected"` occurs at position `i` of `l`.
pub open spec fn marker_at(l: Seq<char>, i: int) -> bool {
    &&& 0 <= i
    &&& i + 10 <= l.len()
    &&& l[i] == ' '
    &&& l[i + 1] == 'c'
    &&& l[i + 2] == 'o'
    &&& l[i + 3] == 'n'
    &&& l[i + 4] == 'n'
    &&& l[i + 5] == 'e'
    &&& l[i + 6] == 'c'
    &&& l[i + 7] == 't'
    &&& l[i + 8] == 'e'
    &&& l[i + 9] == 'd'
}

/// Where the connected-display identifier starting at `i` would end:
/// after a word run, a dash, a second word run, a dash, and a digit run.
pub open spec fn connected_ident_end(l: Seq<char>, i: int) -> int {
    digit_run_end(l, word_run_end(l, word_run_end(l, i) + 1) + 1)
}

/// An identifier of the shape `<word>-<word>-<digits>` starts at
/// position `i` and is followed immediately by `" connected"`.
pub open spec fn connected_at(l: Seq<char>, i: int) -> bool {
    let a = word_run_end(l, i);
    let b = word_run_end(l, a + 1);
    let d = digit_run_end(l, b + 1);
    &&& a > i
    &&& a < l.len()
    &&& l[a] == '-'
    &&& b > a + 1
    &&& b < l.len()
    &&& l[b] == '-'
    &&& d > b + 1
    &&& marker_at(l, d)
}

/// A resolution token `<digits>x<digits>` starts at position `i`.
pub open spec fn resolution_at(l: Seq<char>, i: int) -> bool {
    let d1 = digit_run_end(l, i);
    &&& d1 > i
    &&& d1 < l.len()
    &&& l[d1] == 'x'
    &&& digit_run_end(l, d1 + 1) > d1 + 1
}

/// The leftmost position at or after `i` where a connected-display
/// identifier starts, if any.
pub open spec fn first_connected(l: Seq<char>, i: int) -> Option<int>
    decreases l.len() - i,
{
    if !(0 <= i < l.len()) {
        None
    } else if connected_at(l, i) {
        Some(i)
    } else {
        first_connected(l, i + 1)
    }
}

/// The leftmost position at or after `i` where a resolution token
/// starts, if any.
pub open spec fn first_resolution(l: Seq<char>, i: int) -> Option<int>
    decreases l.len() - i,
{
    if !(0 <= i < l.len()) {
        None
    } else if resolution_at(l, i) {
        Some(i)
    } else {
        first_resolution(l, i + 1)
    }
}

/// What one line yields: the identifier of its leftmost
/// connected-display match paired with the width and height of its
/// leftmost resolution token, provided the line has both and the
/// numbers fit in `u32`.
pub open spec fn line_result(l: Seq<char>) -> Option<(Seq<char>, u32, u32)> {
    match first_connected(l, 0) {
        None => None,
        Some(ci) => match first_resolution(l, 0) {
            None => None,
            Some(ri) => {
                let d1 = digit_run_end(l, ri);
                let d2 = digit_run_end(l, d1 + 1);
                let wv = digits_value(l.subrange(ri, d1));
                let hv = digits_value(l.subrange(d1 + 1, d2));
                if wv <= u32::MAX && hv <= u32::MAX {
                    Some((l.subrange(ci, connected_ident_end(l, ci)), wv as u32, hv as u32))
                } else {
                    None
                }
            },
        },
    }
}

/// The position of the first newline at or after `i`, or the length of
/// `t` when there is none.
pub open spec fn line_break(t: Seq<char>, i: int) -> int
    decreases t.len() - i,
{
    if !(0 <= i < t.len()) {
        t.len() as int
    } else if t[i] == '\n' {
        i
    } else {
        line_break(t, i + 1)
    }
}

pub proof fn lemma_line_break(t: Seq<char>, i: int)
    requires
        0 <= i <= t.len(),
    ensures
        i <= line_break(t, i) <= t.len(),
        forall|k: int| i <= k < line_break(t, i) ==> t[k] != '\n',
        line_break(t, i) < t.len() ==> t[line_break(t, i)] == '\n',
    decreases t.len() - i,
{
    if i < t.len() && t[i] != '\n' {
        lemma_line_break(t, i + 1);
    }
}

/// A line with its trailing carriage return, if any, removed.
pub open spec fn strip_cr(l: Seq<char>) -> Seq<char> {
    if l.len() > 0 && l.last() == '\r' {
        l.drop_last()
    } else {
        l
    }
}

/// What the parser owes on the text `t` from position `pos` on: the
/// result of the first line, in top-to-bottom order, that yields one.
pub open spec fn parse_from(t: Seq<char>, pos: int) -> Option<(Seq<char>, u32, u32)>
    decreases t.len() - pos,
    via parse_from_decreases
{
    if !(0 <= pos < t.len()) {
        None
    } else {
        let e = line_break(t, pos);
        match line_result(strip_cr(t.subrange(pos, e))) {
            Some(r) => Some(r),
            None => if e < t.len() {
                parse_from(t, e + 1)
            } else {
                None
            },
        }
    }
}

#[via_fn]
proof fn parse_from_decreases(t: Seq<char>, pos: int) {
    if 0 <= pos < t.len() {
        lemma_line_break(t, pos);
    }
}

/// The parser's whole contract, from the top of the text.
pub open spec fn parse_spec(t: Seq<char>) -> Option<(Seq<char>, u32, u32)> {
    parse_from(t, 0)
}

/// Extending a text does not move the line breaks that lie strictly
/// inside its old part.
proof fn lemma_line_break_prefix(t1: Seq<char>, t2: Seq<char>, pos: int)
    requires
        0 <= pos <= t1.len(),
        line_break(t1, pos) < t1.len(),
    ensures
        line_break(t1 + t2, pos) == line_break(t1, pos),
    decreases t1.len() - pos,
{
    assert((t1 + t2)[pos] == t1[pos]);
    if t1[pos] != '\n' {
        lemma_line_break_prefix(t1, t2, pos + 1);
    }
}

proof fn lemma_parse_from_extend(t1: Seq<char>, t2: Seq<char>, pos: int, r: (Seq<char>, u32, u32))
    requires
        0 <= pos <= t1.len(),
        t1.len() > 0,
        t1.last() == '\n',
        parse_from(t1, pos) == Some(r),
    ensures
        parse_from(t1 + t2, pos) == Some(r),
    decreases t1.len() - pos,
{
    let t = t1 + t2;
    assert(pos < t1.len());
    let e1 = line_break(t1, pos);
    lemma_line_break(t1, pos);
    assert(e1 < t1.len()) by {
        if e1 == t1.len() {
            assert(t1[t1.len() - 1] == '\n');
        }
    }
    lemma_line_break_prefix(t1, t2, pos);
    assert(t.subrange(pos, e1) =~= t1.subrange(pos, e1));
    match line_result(strip_cr(t1.subrange(pos, e1))) {
        Some(rr) => {
            // Both texts stop at this line, with the same result.
        },
        None => {
            lemma_parse_from_extend(t1, t2, e1 + 1, r);
        },
    }
}

/// Later lines are ignored: once a newline-terminated text yields a
/// display, appending anything after it (further connected lines
/// included) leaves the parser's result unchanged.
pub proof fn lemma_later_lines_ignored(t1: Seq<char>, t2: Seq<char>, r: (Seq<char>, u32, u32))
    requires
        t1.len() > 0,
        t1.last() == '\n',
        parse_spec(t1) == Some(r),
    ensures
        parse_spec(t1 + t2) == Some(r),
{
    lemma_parse_from_extend(t1, t2, 0, r);
}

fn marker_check(l: &Vec<char>, i: usize) -> (b: bool)
    requires
        i <= l.len(),
    ensures
        b == marker_at(l@, i as int),
{
    if l.len() - i < 10 {
        return false;
    }
    l[i] == ' ' && l[i + 1] == 'c' && l[i + 2] == 'o' && l[i + 3] == 'n' && l[i + 4] == 'n' && l[i
        + 5] == 'e' && l[i + 6] == 'c' && l[i + 7] == 't' && l[i + 8] == 'e' && l[i + 9] == 'd'
}

/// Tests for a connected-display identifier starting at `i`; on success
/// returns the position just past the identifier.
fn connected_check(l: &Vec<char>, i: usize) -> (r: Option<usize>)
    requires
        i <= l.len(),
    ensures
        match r {
            Some(e) => connected_at(l@, i as int) && e == connected_ident_end(l@, i as int) && i
                < e <= l.len(),
            None => !connected_at(l@, i as int),
        },
{
    let a = word_run_end_exec(l, i);
    if a == i || a == l.len() {
        return None;
    }
    if l[a] != '-' {
        return None;
    }
    let b = word_run_end_exec(l, a + 1);
    if b == a + 1 || b == l.len() {
        return None;
    }
    if l[b] != '-' {
        return None;
    }
    let d = digit_run_end_exec(l, b + 1);
    if d == b + 1 {
        return None;
    }
    if marker_check(l, d) {
        Some(d)
    } else {
        None
    }
}

/// Tests for a resolution token starting at `i`; on success returns the
/// ends of the two digit runs.
fn resolution_check(l: &Vec<char>, i: usize) -> (r: Option<(usize, usize)>)
    requires
        i <= l.len(),
    ensures
        match r {
            Some(p) => resolution_at(l@, i as int) && p.0 == digit_run_end(l@, i as int) && p.1
                == digit_run_end(l@, p.0 + 1) && i < p.0 && p.0 + 1 < p.1 <= l.len(),
            None => !resolution_at(l@, i as int),
        },
{
    let d1 = digit_run_end_exec(l, i);
    if d1 == i || d1 == l.len() {
        return None;
    }
    if l[d1] != 'x' {
        return None;
    }
    let d2 = digit_run_end_exec(l, d1 + 1);
    if d2 == d1 + 1 {
        return None;
    }
    Some((d1, d2))
}

/// Finds the leftmost connected-display identifier of the line:
/// its start and its end.
fn find_connected(l: &Vec<char>) -> (r: Option<(usize, usize)>)
    ensures
        match r {
            Some(p) => first_connected(l@, 0) == Some(p.0 as int) && p.1 == connected_ident_end(
                l@,
                p.0 as int,
            ) && p.0 < p.1 <= l.len(),
            None => first_connected(l@, 0) is None,
        },
{
    let mut i: usize = 0;
    while i < l.len()
        invariant
            i <= l.len(),
            first_connected(l@, 0) == first_connected(l@, i as int),
        decreases l.len() - i,
    {
        match connected_check(l, i) {
            Some(e) => {
                return Some((i, e));
            },
            None => {
                i += 1;
            },
        }
    }
    None
}

/// Finds the leftmost resolution token of the line: its start and the
/// ends of its two digit runs.
fn find_resolution(l: &Vec<char>) -> (r: Option<(usize, usize, usize)>)
    ensures
        match r {
            Some(p) => first_resolution(l@, 0) == Some(p.0 as int) && p.1 == digit_run_end(
                l@,
                p.0 as int,
            ) && p.2 == digit_run_end(l@, p.1 + 1) && p.0 < p.1 && p.1 + 1 < p.2 <= l.len(),
            None => first_resolution(l@, 0) is None,
        },
{
    let mut i: usize = 0;
    while i < l.len()
        invariant
            i <= l.len(),
            first_resolution(l@, 0) == first_resolution(l@, i as int),
        decreases l.len() - i,
    {
        match resolution_check(l, i) {
            Some(p) => {
                return Some((i, p.0, p.1));
            },
            None => {
                i += 1;
            },
        }
    }
    None
}

/// Evaluates one line: the identifier's bounds within the line, and the
/// parsed width and height, when the line qualifies.
fn line_eval(l: &Vec<char>) -> (r: Option<(usize, usize, u32, u32)>)
    ensures
        match r {
            Some(q) => q.0 < q.1 <= l.len() && line_result(l@) == Some(
                (l@.subrange(q.0 as int, q.1 as int), q.2, q.3),
            ),
            None => line_result(l@) is None,
        },
{
    let conn = find_connected(l);
    match conn {
        None => None,
        Some((ci, ce)) => {
            match find_resolution(l) {
                None => None,
                Some((ri, d1, d2)) => {
                    proof {
                        lemma_digit_run_end(l@, ri as int);
                        lemma_digit_run_end(l@, (d1 + 1) as int);
                    }
                    let w = parse_u32_digits(l, ri, d1);
                    let h = parse_u32_digits(l, d1 + 1, d2);
                    match (w, h) {
                        (Some(wv), Some(hv)) => Some((ci, ce, wv, hv)),
                        _ => None,
                    }
                },
            }
        },
    }
}

/// Collects the characters of a string into a vector.
fn chars_of(s: &str) -> (v: Vec<char>)
    ensures
        v@ == s@,
{
    let n = s.unicode_len();
    let mut v: Vec<char> = Vec::new();
    let mut i: usize = 0;
    while i < n
        invariant
            i <= n,
            n == s@.len(),
            v@ == s@.subrange(0, i as int),
        decreases n - i,
    {
        v.push(s.get_char(i));
        i += 1;
    }
    proof {
        assert(s@.subrange(0, n as int) =~= s@);
    }
    v
}

/// Finds the first newline at or after `pos`.
fn line_break_exec(t: &Vec<char>, pos: usize) -> (e: usize)
    requires
        pos <= t.len(),
    ensures
        e == line_break(t@, pos as int),
        pos <= e <= t.len(),
{
    let mut j = pos;
    while j < t.len() && t[j] != '\n'
        invariant
            pos <= j <= t.len(),
            line_break(t@, pos as int) == line_break(t@, j as int),
        decreases t.len() - j,
    {
        j += 1;
    }
    proof {
        lemma_line_break(t@, j as int);
    }
    j
}

/// Copies the line `t[pos..e]` out, dropping a trailing carriage
/// return.
fn extract_line(t: &Vec<char>, pos: usize, e: usize) -> (l: Vec<char>)
    requires
        pos <= e <= t.len(),
    ensures
        l@ == strip_cr(t@.subrange(pos as int, e as int)),
        l@.len() <= e - pos,
        forall|k: int| 0 <= k < l@.len() ==> l@[k] == t@[pos + k],
{
    let mut l: Vec<char> = Vec::new();
    let mut k = pos;
    while k < e
        invariant
            pos <= k <= e <= t.len(),
            l@ == t@.subrange(pos as int, k as int),
        decreases e - k,
    {
        l.push(t[k]);
        k += 1;
    }
    proof {
        assert(l@ =~= t@.subrange(pos as int, e as int));
    }
    if l.len() > 0 && l[l.len() - 1] == '\r' {
        l.pop();
        proof {
            assert(l@ =~= strip_cr(t@.subrange(pos as int, e as int)));
        }
    }
    l
}

/// Extracts, from the raw status output of the display tool, the
/// identifier and resolution of the first connected display: the first
/// line holding both an identifier followed by `" connected"` and a
/// `<width>x<height>` token whose numbers fit in `u32`. Fails with
/// `NoConnectedDisplay` exactly when no line qualifies.
pub fn parse_display_info(output: &str) -> (r: Result<(String, u32, u32), ParseError>)
    ensures
        match r {
            Ok(info) => parse_spec(output@) == Some((info.0@, info.1, info.2)),
            Err(_) => parse_spec(output@) is None,
        },
{
    let t = chars_of(output);
    let n = t.len();
    let mut pos: usize = 0;
    while pos < n
        invariant
            pos <= n,
            n == t@.len(),
            t@ == output@,
            parse_from(output@, 0) == parse_from(output@, pos as int),
        decreases n - pos,
    {
        let e = line_break_exec(&t, pos);
        let line = extract_line(&t, pos, e);
        match line_eval(&line) {
            Some((ls, le, w, h)) => {
                proof {
                    assert(line@.subrange(ls as int, le as int) =~= output@.subrange(
                        pos + ls,
                        pos + le,
                    ));
                }
                let ident = output.substring_char(pos + ls, pos + le).to_owned();
                proof {
                    assert(parse_from(output@, pos as int) == Some(
                        (output@.subrange(pos + ls, pos + le), w, h),
                    ));
                }
                return Ok((ident, w, h));
            },
            None => {
                if e < n {
                    proof {
                        assert(parse_from(output@, pos as int) == parse_from(output@, e + 1));
                    }
                    pos = e + 1;
                } else {
                    proof {
                        assert(parse_from(output@, pos as int) is None);
                    }
                    return Err(ParseError::NoConnectedDisplay);
                }
            },
        }
    }
    Err(ParseError::NoConnectedDisplay)
}

} // verus!
