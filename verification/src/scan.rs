//! Character-level scanning helpers for the status-output parser:
//! character classes, maximal runs of word or digit characters, and the
//! numeric value of a run of decimal digits.

use vstd::prelude::*;

verus! {

/// A word character: ASCII letter, ASCII digit, or underscore.
pub open spec fn is_word_char(c: char) -> bool {
    ||| 'a' as u32 <= c as u32 && c as u32 <= 'z' as u32
    ||| 'A' as u32 <= c as u32 && c as u32 <= 'Z' as u32
    ||| '0' as u32 <= c as u32 && c as u32 <= '9' as u32
    ||| c == '_'
}

/// An ASCII decimal digit.
pub open spec fn is_digit_char(c: char) -> bool {
    '0' as u32 <= c as u32 && c as u32 <= '9' as u32
}

/// The numeric value of a digit character.
pub open spec fn digit_val(c: char) -> int {
    c as u32 - '0' as u32
}

/// The end of the maximal run of word characters starting at `i`: the
/// first index at or after `i` holding a non-word character, or the
/// length of `l`.
pub open spec fn word_run_end(l: Seq<char>, i: int) -> int
    decreases l.len() - i,
{
    if !(0 <= i < l.len()) {
        i
    } else if is_word_char(l[i]) {
        word_run_end(l, i + 1)
    } else {
        i
    }
}

/// The end of the maximal run of digit characters starting at `i`.
pub open spec fn digit_run_end(l: Seq<char>, i: int) -> int
    decreases l.len() - i,
{
    if !(0 <= i < l.len()) {
        i
    } else if is_digit_char(l[i]) {
        digit_run_end(l, i + 1)
    } else {
        i
    }
}

pub proof fn lemma_word_run_end(l: Seq<char>, i: int)
    requires
        0 <= i <= l.len(),
    ensures
        i <= word_run_end(l, i) <= l.len(),
        forall|k: int| i <= k < word_run_end(l, i) ==> is_word_char(l[k]),
        word_run_end(l, i) < l.len() ==> !is_word_char(l[word_run_end(l, i)]),
    decreases l.len() - i,
{
    if i < l.len() && is_word_char(l[i]) {
        lemma_word_run_end(l, i + 1);
    }
}

pub proof fn lemma_digit_run_end(l: Seq<char>, i: int)
    requires
        0 <= i <= l.len(),
    ensures
        i <= digit_run_end(l, i) <= l.len(),
        forall|k: int| i <= k < digit_run_end(l, i) ==> is_digit_char(l[k]),
        digit_run_end(l, i) < l.len() ==> !is_digit_char(l[digit_run_end(l, i)]),
    decreases l.len() - i,
{
    if i < l.len() && is_digit_char(l[i]) {
        lemma_digit_run_end(l, i + 1);
    }
}

/// The value of a run of decimal digits read as a base-10 numeral.
pub open spec fn digits_value(s: Seq<char>) -> int
    decreases s.len(),
{
    if s.len() == 0 {
        0
    } else {
        digits_value(s.drop_last()) * 10 + digit_val(s.last())
    }
}

pub proof fn lemma_digits_value_nonneg(s: Seq<char>)
    requires
        forall|k: int| 0 <= k < s.len() ==> is_digit_char(s[k]),
    ensures
        digits_value(s) >= 0,
    decreases s.len(),
{
    if s.len() > 0 {
        lemma_digits_value_nonneg(s.drop_last());
    }
}

/// A prefix of a digit run never exceeds the value of the whole run.
pub proof fn lemma_digits_value_prefix(s: Seq<char>, k: int)
    requires
        forall|j: int| 0 <= j < s.len() ==> is_digit_char(s[j]),
        0 <= k <= s.len(),
    ensures
        digits_value(s.take(k)) <= digits_value(s),
    decreases s.len(),
{
    if k == s.len() {
        assert(s.take(k) =~= s);
    } else {
        lemma_digits_value_prefix(s.drop_last(), k);
        assert(s.drop_last().take(k) =~= s.take(k));
        lemma_digits_value_nonneg(s.drop_last());
    }
}

fn char_is_word(c: char) -> (b: bool)
    ensures
        b == is_word_char(c),
{
    let u = c as u32;
    ('a' as u32 <= u && u <= 'z' as u32) || ('A' as u32 <= u && u <= 'Z' as u32) || ('0' as u32
        <= u && u <= '9' as u32) || c == '_'
}

fn char_is_digit(c: char) -> (b: bool)
    ensures
        b == is_digit_char(c),
{
    let u = c as u32;
    '0' as u32 <= u && u <= '9' as u32
}

/// Finds the end of the maximal word-character run starting at `i`.
pub fn word_run_end_exec(l: &Vec<char>, i: usize) -> (r: usize)
    requires
        i <= l.len(),
    ensures
        r == word_run_end(l@, i as int),
        i <= r <= l.len(),
{
    let mut j = i;
    while j < l.len() && char_is_word(l[j])
        invariant
            i <= j <= l.len(),
            word_run_end(l@, i as int) == word_run_end(l@, j as int),
        decreases l.len() - j,
    {
        j += 1;
    }
    proof {
        lemma_word_run_end(l@, j as int);
    }
    j
}

/// Finds the end of the maximal digit run starting at `i`.
pub fn digit_run_end_exec(l: &Vec<char>, i: usize) -> (r: usize)
    requires
        i <= l.len(),
    ensures
        r == digit_run_end(l@, i as int),
        i <= r <= l.len(),
{
    let mut j = i;
    while j < l.len() && char_is_digit(l[j])
        invariant
            i <= j <= l.len(),
            digit_run_end(l@, i as int) == digit_run_end(l@, j as int),
        decreases l.len() - j,
    {
        j += 1;
    }
    proof {
        lemma_digit_run_end(l@, j as int);
    }
    j
}

/// Reads the digits `l[from..to]` as an unsigned decimal number.
/// Returns `None` exactly when the value does not fit in a `u32`.
pub fn parse_u32_digits(l: &Vec<char>, from: usize, to: usize) -> (r: Option<u32>)
    requires
        from <= to <= l.len(),
        forall|k: int| from <= k < to ==> is_digit_char(l@[k]),
    ensures
        match r {
            Some(v) => v as int == digits_value(l@.subrange(from as int, to as int)),
            None => digits_value(l@.subrange(from as int, to as int)) > u32::MAX,
        },
{
    let ghost run = l@.subrange(from as int, to as int);
    let mut acc: u64 = 0;
    let mut j = from;
    while j < to
        invariant
            from <= j <= to <= l.len(),
            forall|k: int| from <= k < to ==> is_digit_char(l@[k]),
            run == l@.subrange(from as int, to as int),
            acc as int == digits_value(run.take(j - from)),
            acc <= u32::MAX,
        decreases to - j,
    {
        let c = l[j];
        proof {
            assert(is_digit_char(l@[j as int]));
        }
        let d: u64 = (c as u32 - '0' as u32) as u64;
        let ghost prev = run.take(j - from);
        let ghost cur = run.take(j + 1 - from);
        proof {
            assert(cur.drop_last() =~= prev);
            assert(cur.last() == l@[j as int]);
            assert(digits_value(cur) == digits_value(prev) * 10 + digit_val(l@[j as int]));
            assert(d as int == digit_val(l@[j as int]));
        }
        acc = acc * 10 + d;
        j += 1;
        if acc > u32::MAX as u64 {
            proof {
                assert(forall|k2: int| 0 <= k2 < run.len() ==> is_digit_char(run[k2]));
                lemma_digits_value_prefix(run, j - from);
            }
            return None;
        }
    }
    proof {
        assert(run.take(to - from) =~= run);
    }
    Some(acc as u32)
}

} // verus!
