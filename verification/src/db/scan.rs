//! Scanning of SQL text that tells literals from syntax.
//!
//! A scan reads characters from left to right and keeps three flags: inside a
//! single-quoted literal, inside a double-quoted literal, and whether the
//! character just read was a backslash that takes effect on the next one. A
//! comma or a parenthesis is structural only where neither quote flag is set.

use crate::text::{ascii_lower, to_ascii_lower};
use vstd::prelude::*;

verus! {

/// What a scan remembers between two characters.
#[derive(Clone, Copy, Debug)]
pub struct QuoteState {
    pub in_single: bool,
    pub in_double: bool,
    pub escaped: bool,
}

impl QuoteState {
    /// The state before the first character.
    pub open spec fn start() -> QuoteState {
        QuoteState { in_single: false, in_double: false, escaped: false }
    }

    /// Whether the next character lies inside a literal.
    pub open spec fn quoted(self) -> bool {
        self.in_single || self.in_double
    }

    /// The state after reading `c`.
    ///
    /// A quote character toggles its own flag unless the other kind of literal
    /// is open or the escape flag is set. A backslash toggles the escape flag;
    /// every other character clears it. So a backslash protects exactly one
    /// following quote, and of two backslashes in a row the second undoes the
    /// first.
    pub open spec fn spec_step(self, c: char) -> QuoteState {
        if c == '\'' {
            QuoteState {
                in_single: if !self.in_double && !self.escaped {
                    !self.in_single
                } else {
                    self.in_single
                },
                in_double: self.in_double,
                escaped: false,
            }
        } else if c == '"' {
            QuoteState {
                in_single: self.in_single,
                in_double: if !self.in_single && !self.escaped {
                    !self.in_double
                } else {
                    self.in_double
                },
                escaped: false,
            }
        } else if c == '\\' {
            QuoteState {
                in_single: self.in_single,
                in_double: self.in_double,
                escaped: !self.escaped,
            }
        } else {
            QuoteState { in_single: self.in_single, in_double: self.in_double, escaped: false }
        }
    }

    /// The state before the first character.
    pub fn new() -> (st: QuoteState)
        ensures
            st == QuoteState::start(),
    {
        QuoteState { in_single: false, in_double: false, escaped: false }
    }

    /// The state after reading `c`.
    #[verifier::when_used_as_spec(spec_step)]
    pub fn step(self, c: char) -> (st: QuoteState)
        ensures
            st == self.spec_step(c),
    {
        let mut st = self;
        if c == '\'' {
            if !st.in_double && !st.escaped {
                st.in_single = !st.in_single;
            }
            st.escaped = false;
        } else if c == '"' {
            if !st.in_single && !st.escaped {
                st.in_double = !st.in_double;
            }
            st.escaped = false;
        } else if c == '\\' {
            st.escaped = !st.escaped;
        } else {
            st.escaped = false;
        }
        st
    }

    /// Whether the next character lies inside a literal.
    pub fn is_quoted(&self) -> (b: bool)
        ensures
            b == self.quoted(),
    {
        self.in_single || self.in_double
    }
}

/// The state of a scan of `s` that has read its first `n` characters.
pub open spec fn state_after(s: Seq<char>, n: int) -> QuoteState
    decreases n,
{
    if n <= 0 {
        QuoteState::start()
    } else {
        state_after(s, n - 1).spec_step(s[n - 1])
    }
}

/// Whether `s` holds `target` at `i`, outside every literal.
pub open spec fn structural_at(s: Seq<char>, i: int, target: char) -> bool {
    0 <= i < s.len() && s[i] == target && !state_after(s, i).quoted()
}

/// The least index at or after `from` where `target` is structural in `s`, or
/// the length of `s` where there is none.
pub open spec fn structural_offset(s: Seq<char>, target: char, from: int) -> int
    decreases s.len() - from,
{
    if from >= s.len() {
        s.len() as int
    } else if structural_at(s, from, target) {
        from
    } else {
        structural_offset(s, target, from + 1)
    }
}

/// The index of the first structural `target` in `s`, or the length of `s`
/// where there is none.
pub open spec fn first_structural(s: Seq<char>, target: char) -> int {
    structural_offset(s, target, 0)
}

/// `structural_offset` is the least structural index from `from` on.
pub proof fn lemma_structural_offset(s: Seq<char>, target: char, from: int)
    requires
        0 <= from <= s.len(),
    ensures
        from <= structural_offset(s, target, from) <= s.len(),
        structural_offset(s, target, from) < s.len() ==> structural_at(
            s,
            structural_offset(s, target, from),
            target,
        ),
        forall|j: int|
            from <= j < structural_offset(s, target, from) ==> !structural_at(s, j, target),
    decreases s.len() - from,
{
    if from < s.len() && !structural_at(s, from, target) {
        lemma_structural_offset(s, target, from + 1);
    }
}

/// An index with nothing structural between `from` and it, which is itself
/// structural or the end, is the offset.
pub proof fn lemma_structural_offset_is(s: Seq<char>, target: char, from: int, k: int)
    requires
        0 <= from <= k <= s.len(),
        forall|j: int| from <= j < k ==> !structural_at(s, j, target),
        k < s.len() ==> structural_at(s, k, target),
    ensures
        structural_offset(s, target, from) == k,
    decreases k - from,
{
    if from < k {
        lemma_structural_offset_is(s, target, from + 1, k);
    }
}

/// The first structural `target` of `s`: nothing before it is structural, and
/// it is structural itself unless it is the end.
pub proof fn lemma_first_structural(s: Seq<char>, target: char)
    ensures
        0 <= first_structural(s, target) <= s.len(),
        first_structural(s, target) < s.len() ==> structural_at(
            s,
            first_structural(s, target),
            target,
        ),
        forall|j: int| 0 <= j < first_structural(s, target) ==> !structural_at(s, j, target),
{
    lemma_structural_offset(s, target, 0);
}

/// A scan does not look ahead: two texts that agree on their first `n`
/// characters are in the same state after them.
pub proof fn lemma_state_after_agrees(s: Seq<char>, t: Seq<char>, n: int)
    requires
        n <= s.len(),
        n <= t.len(),
        forall|j: int| 0 <= j < n ==> s[j] == t[j],
    ensures
        state_after(s, n) == state_after(t, n),
    decreases n,
{
    if n > 0 {
        lemma_state_after_agrees(s, t, n - 1);
    }
}

/// Whether `text` holds the keyword `kw` at `i`, ASCII capitals in `text`
/// counting as their small letters. `kw` is compared as it is written.
pub open spec fn keyword_at(text: Seq<char>, i: int, kw: Seq<char>) -> bool {
    &&& 0 <= i
    &&& i + kw.len() <= text.len()
    &&& forall|k: int| 0 <= k < kw.len() ==> ascii_lower(#[trigger] text[i + k]) == kw[k]
}

/// Whether `text` holds the keyword `kw` at `i`, in any case. `kw` is given
/// in small letters.
pub fn match_kw_ci(text: &[char], i: usize, kw: &[char]) -> (found: bool)
    ensures
        found == keyword_at(text@, i as int, kw@),
{
    if kw.len() > text.len() || i > text.len() - kw.len() {
        return false;
    }
    let mut k: usize = 0;
    while k < kw.len()
        invariant
            k <= kw.len(),
            i + kw.len() <= text.len(),
            forall|j: int| 0 <= j < k ==> ascii_lower(#[trigger] text@[i + j]) == kw@[j],
        decreases kw.len() - k,
    {
        if to_ascii_lower(text[i + k]) != kw[k] {
            return false;
        }
        k += 1;
    }
    true
}

/// One of the four blank characters that may stand between a keyword and what
/// follows it: space, line feed, tab, carriage return.
pub open spec fn spec_is_space(c: char) -> bool {
    c == ' ' || c == '\n' || c == '\t' || c == '\r'
}

/// Whether `c` is a space, a line feed, a tab or a carriage return.
#[verifier::when_used_as_spec(spec_is_space)]
pub fn is_space(c: char) -> (b: bool)
    ensures
        b == spec_is_space(c),
{
    c == ' ' || c == '\n' || c == '\t' || c == '\r'
}

/// The index of the first structural `target` of `s`, or its length.
fn find_structural(s: &[char], target: char) -> (k: usize)
    ensures
        k as int == first_structural(s@, target),
{
    let mut st = QuoteState::new();
    let mut i: usize = 0;
    while i < s.len()
        invariant
            i <= s.len(),
            st == state_after(s@, i as int),
            forall|j: int| 0 <= j < i ==> !structural_at(s@, j, target),
        decreases s.len() - i,
    {
        let c = s[i];
        if c == target && !st.is_quoted() {
            proof {
                lemma_structural_offset_is(s@, target, 0, i as int);
            }
            return i;
        }
        st = st.step(c);
        i += 1;
    }
    proof {
        lemma_structural_offset_is(s@, target, 0, i as int);
    }
    i
}

/// The offset of the first comma of `s` that lies outside every single- or
/// double-quoted literal, if there is one.
pub fn find_first_comma_outside_string(s: &[char]) -> (cut: Option<usize>)
    ensures
        match cut {
            Some(k) => k as int == first_structural(s@, ',') && structural_at(s@, k as int, ','),
            None => first_structural(s@, ',') == s@.len(),
        },
        forall|j: int|
            0 <= j < first_structural(s@, ',') ==> !structural_at(s@, j, ','),
{
    proof {
        lemma_first_structural(s@, ',');
    }
    let k = find_structural(s, ',');
    if k < s.len() {
        Some(k)
    } else {
        None
    }
}

/// What stands before the first closing parenthesis of `s` that lies outside
/// every literal, and how many characters that is. Where `s` has no such
/// parenthesis, all of `s` and its length.
pub fn take_until_matching_paren(s: &[char]) -> (r: (Vec<char>, usize))
    ensures
        r.1 as int == first_structural(s@, ')'),
        r.1 <= s@.len(),
        r.0@ == s@.take(r.1 as int),
        r.1 < s@.len() ==> structural_at(s@, r.1 as int, ')'),
        forall|j: int| 0 <= j < r.1 ==> !structural_at(s@, j, ')'),
{
    proof {
        lemma_first_structural(s@, ')');
    }
    let k = find_structural(s, ')');
    let mut buf: Vec<char> = Vec::new();
    let mut i: usize = 0;
    while i < k
        invariant
            i <= k <= s.len(),
            buf@ == s@.take(i as int),
        decreases k - i,
    {
        buf.push(s[i]);
        i += 1;
    }
    (buf, k)
}

/// The nesting depth after the first `n` characters of `s`, for a scan that
/// starts inside one pair of parentheses: a `(` outside a literal opens a
/// pair, a `)` outside a literal closes one.
pub open spec fn depth_after(s: Seq<char>, n: int) -> int
    decreases n,
{
    if n <= 0 {
        1
    } else if structural_at(s, n - 1, '(') {
        depth_after(s, n - 1) + 1
    } else if structural_at(s, n - 1, ')') {
        depth_after(s, n - 1) - 1
    } else {
        depth_after(s, n - 1)
    }
}

/// Whether the pair of parentheses that a scan of `s` starts in is still open
/// after each of its first `n` characters.
pub open spec fn stays_open(s: Seq<char>, n: int) -> bool
    decreases n,
{
    n <= 0 || (stays_open(s, n - 1) && depth_after(s, n) >= 1)
}

/// Depth, like state, does not look ahead: two texts that agree on their
/// first `n` characters are at the same depth after them, and the pair that
/// the scan started in stays open in both or in neither.
pub proof fn lemma_depth_agrees(s: Seq<char>, t: Seq<char>, n: int)
    requires
        n <= s.len(),
        n <= t.len(),
        forall|j: int| 0 <= j < n ==> s[j] == t[j],
    ensures
        depth_after(s, n) == depth_after(t, n),
        stays_open(s, n) == stays_open(t, n),
    decreases n,
{
    if n > 0 {
        lemma_depth_agrees(s, t, n - 1);
        lemma_state_after_agrees(s, t, n - 1);
    }
}

/// Whether the parentheses that a scan of `s` starts in stay open over its
/// first `n` characters.
pub fn parens_stay_open(s: &[char], n: usize) -> (open: bool)
    requires
        n < s.len(),
    ensures
        open == stays_open(s@, n as int),
{
    let mut st = QuoteState::new();
    let mut depth: usize = 1;
    let mut i: usize = 0;
    while i < n
        invariant
            i <= n < s.len(),
            st == state_after(s@, i as int),
            stays_open(s@, i as int),
            depth as int == depth_after(s@, i as int),
            1 <= depth <= i + 1,
        decreases n - i,
    {
        let c = s[i];
        if !st.is_quoted() {
            if c == '(' {
                depth += 1;
            } else if c == ')' {
                depth -= 1;
                if depth == 0 {
                    proof {
                        assert(depth_after(s@, i as int + 1) == 0);
                        if stays_open(s@, n as int) {
                            lemma_stays_open_before(s@, i as int + 1, n as int);
                        }
                    }
                    return false;
                }
            }
        }
        st = st.step(c);
        i += 1;
    }
    true
}

/// A pair that is open after `n` characters was open after every shorter
/// beginning.
pub proof fn lemma_stays_open_before(s: Seq<char>, k: int, n: int)
    requires
        k <= n,
        stays_open(s, n),
    ensures
        stays_open(s, k),
    decreases n - k,
{
    if k < n {
        lemma_stays_open_before(s, k, n - 1);
    }
}

} // verus!
