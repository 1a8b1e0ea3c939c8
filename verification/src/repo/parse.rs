//! Reading what `git` prints: words, line counts, decimal numbers.

use crate::text::{
    char_is_whitespace, count_of, is_whitespace, lemma_split_pieces, split, text_lines,
};
use vstd::prelude::*;

verus! {

/// The index of the first character of `s` at or after `from` that is not
/// white space, or the length of `s`.
pub open spec fn blank_end(s: Seq<char>, from: int) -> int
    decreases s.len() - from,
{
    if from >= s.len() {
        s.len() as int
    } else if is_whitespace(s[from]) {
        blank_end(s, from + 1)
    } else {
        from
    }
}

/// The index of the first white space of `s` at or after `from`, or the
/// length of `s`.
pub open spec fn word_end(s: Seq<char>, from: int) -> int
    decreases s.len() - from,
{
    if from >= s.len() {
        s.len() as int
    } else if is_whitespace(s[from]) {
        from
    } else {
        word_end(s, from + 1)
    }
}

/// The first word of `s` at or after `from`: the longest run of characters
/// that are not white space, behind any white space. Nothing where only white
/// space is left.
pub open spec fn word_from(s: Seq<char>, from: int) -> Option<Seq<char>> {
    let start = blank_end(s, from);
    if start < s.len() {
        Some(s.subrange(start, word_end(s, start)))
    } else {
        None
    }
}

/// The first word of `s`.
pub open spec fn first_word(s: Seq<char>) -> Option<Seq<char>> {
    word_from(s, 0)
}

/// The word of `s` behind its first word.
pub open spec fn second_word(s: Seq<char>) -> Option<Seq<char>> {
    let start = blank_end(s, 0);
    if start < s.len() {
        word_from(s, word_end(s, start))
    } else {
        None
    }
}

/// Where the first word of `s` at or after `from` begins and ends; nothing
/// where there is none.
pub fn find_word(s: &[char], from: usize) -> (r: Option<(usize, usize)>)
    requires
        from <= s.len(),
    ensures
        match r {
            Some((start, end)) => {
                &&& start as int == blank_end(s@, from as int)
                &&& end as int == word_end(s@, start as int)
                &&& from <= start < end <= s.len()
                &&& word_from(s@, from as int) == Some(s@.subrange(start as int, end as int))
            },
            None => word_from(s@, from as int) is None && blank_end(s@, from as int) == s.len(),
        },
{
    let mut start: usize = from;
    while start < s.len() && char_is_whitespace(s[start])
        invariant
            from <= start <= s.len(),
            blank_end(s@, from as int) == blank_end(s@, start as int),
        decreases s.len() - start,
    {
        start += 1;
    }
    if start >= s.len() {
        return None;
    }
    let mut end: usize = start + 1;
    while end < s.len() && !char_is_whitespace(s[end])
        invariant
            start < end <= s.len(),
            word_end(s@, start as int) == word_end(s@, end as int),
        decreases s.len() - end,
    {
        end += 1;
    }
    Some((start, end))
}

/// The number that a decimal digit stands for.
pub open spec fn digit_value(c: char) -> int {
    c as int - '0' as int
}

/// Whether `c` is one of the ten decimal digits.
pub open spec fn is_digit(c: char) -> bool {
    '0' <= c && c <= '9'
}

/// The number that a row of decimal digits stands for.
pub open spec fn decimal_value(digits: Seq<char>) -> int
    decreases digits.len(),
{
    if digits.len() == 0 {
        0
    } else {
        decimal_value(digits.drop_last()) * 10 + digit_value(digits.last())
    }
}

/// The digits of a number as it is written: what follows a leading `+`, or
/// all of it.
pub open spec fn digits_of(s: Seq<char>) -> Seq<char> {
    if s.len() > 0 && s[0] == '+' {
        s.drop_first()
    } else {
        s
    }
}

/// The number that `s` is the decimal writing of: one or more digits, with a
/// `+` before them or not, whose value fits. Nothing for any other text.
pub open spec fn parsed_u32(s: Seq<char>) -> Option<u32> {
    let digits = digits_of(s);
    if digits.len() > 0 && (forall|j: int| 0 <= j < digits.len() ==> is_digit(digits[j]))
        && decimal_value(digits) <= u32::MAX {
        Some(decimal_value(digits) as u32)
    } else {
        None
    }
}

/// A row of digits stands for a number that is not below what any shorter
/// beginning of it stands for.
proof fn lemma_decimal_value_grows(digits: Seq<char>, k: int)
    requires
        0 <= k <= digits.len(),
        forall|j: int| 0 <= j < digits.len() ==> is_digit(digits[j]),
    ensures
        0 <= decimal_value(digits.take(k)) <= decimal_value(digits),
    decreases digits.len() - k,
{
    if k == digits.len() {
        assert(digits.take(k) =~= digits);
        lemma_decimal_value_nonnegative(digits);
    } else {
        lemma_decimal_value_grows(digits, k + 1);
        assert(digits.take(k + 1).drop_last() =~= digits.take(k));
        lemma_decimal_value_nonnegative(digits.take(k));
    }
}

proof fn lemma_decimal_value_nonnegative(digits: Seq<char>)
    requires
        forall|j: int| 0 <= j < digits.len() ==> is_digit(digits[j]),
    ensures
        0 <= decimal_value(digits),
    decreases digits.len(),
{
    if digits.len() > 0 {
        lemma_decimal_value_nonnegative(digits.drop_last());
    }
}

/// Reads a decimal number.
pub fn parse_u32(s: &[char]) -> (r: Option<u32>)
    ensures
        r == parsed_u32(s@),
{
    let from: usize = if s.len() > 0 && s[0] == '+' {
        1
    } else {
        0
    };
    let digits = &s[from..s.len()];
    assert(digits@ =~= digits_of(s@));
    if digits.len() == 0 {
        return None;
    }
    let mut value: u64 = 0;
    let mut k: usize = 0;
    assert(digits@.take(0) =~= Seq::<char>::empty());
    while k < digits.len()
        invariant
            k <= digits.len(),
            digits@ == digits_of(s@),
            digits@.len() > 0,
            forall|j: int| 0 <= j < k ==> is_digit(digits@[j]),
            value as int == decimal_value(digits@.take(k as int)),
            value <= u32::MAX,
        decreases digits.len() - k,
    {
        let c = digits[k];
        if !('0' <= c && c <= '9') {
            assert(!is_digit(digits@[k as int]));
            return None;
        }
        let digit: u64 = (c as u64) - ('0' as u64);
        let next: u64 = value * 10 + digit;
        assert(digits@.take(k as int + 1).drop_last() =~= digits@.take(k as int));
        if next > 0xFFFF_FFFF {
            proof {
                if forall|j: int| 0 <= j < digits@.len() ==> is_digit(digits@[j]) {
                    lemma_decimal_value_grows(digits@, k as int + 1);
                }
            }
            return None;
        }
        value = next;
        k += 1;
    }
    assert(digits@.take(digits@.len() as int) =~= digits@);
    Some(value as u32)
}

/// The number of lines of `s`.
pub open spec fn line_count(s: Seq<char>) -> nat {
    text_lines(s).len()
}

/// The last piece between line feeds is empty exactly where the text is
/// empty or ends in a line feed.
proof fn lemma_last_piece(s: Seq<char>)
    ensures
        split(s, '\n').len() > 0,
        (split(s, '\n').last().len() == 0) <==> (s.len() == 0 || s.last() == '\n'),
    decreases s.len(),
{
    if s.len() > 0 {
        lemma_last_piece(s.drop_last());
    }
}

/// A text has one line for each line feed, and one more where something
/// follows the last line feed.
pub proof fn lemma_line_count(s: Seq<char>)
    ensures
        line_count(s) == if s.len() > 0 && s.last() != '\n' {
            count_of(s, '\n') + 1
        } else {
            count_of(s, '\n')
        },
        count_of(s, '\n') <= s.len(),
        s.len() > 0 && s.last() != '\n' ==> count_of(s, '\n') < s.len(),
{
    lemma_split_pieces(s, '\n');
    lemma_last_piece(s);
    lemma_count_of_bound(s, '\n');
    if s.len() > 0 {
        lemma_count_of_bound(s.drop_last(), '\n');
    }
}

proof fn lemma_count_of_bound(s: Seq<char>, c: char)
    ensures
        count_of(s, c) <= s.len(),
    decreases s.len(),
{
    if s.len() > 0 {
        lemma_count_of_bound(s.drop_last(), c);
    }
}

/// The number of lines of `s`.
pub fn count_lines(s: &[char]) -> (n: usize)
    ensures
        n == line_count(s@),
{
    let mut feeds: usize = 0;
    let mut k: usize = 0;
    assert(s@.take(0) =~= Seq::<char>::empty());
    while k < s.len()
        invariant
            k <= s.len(),
            feeds == count_of(s@.take(k as int), '\n'),
            feeds <= k,
        decreases s.len() - k,
    {
        assert(s@.take(k as int + 1).drop_last() =~= s@.take(k as int));
        if s[k] == '\n' {
            feeds += 1;
        }
        k += 1;
    }
    proof {
        assert(s@.take(s@.len() as int) =~= s@);
        lemma_line_count(s@);
    }
    if s.len() > 0 && s[s.len() - 1] != '\n' {
        feeds + 1
    } else {
        feeds
    }
}

} // verus!
