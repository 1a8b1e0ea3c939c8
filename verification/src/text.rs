//! Character sequences: moving between strings and the sequences that the
//! scanners read, and the small operations on them (case folding, trimming,
//! splitting, joining).

use vstd::prelude::*;

verus! {

/// `String::push` appends one character to the end of the string.
pub assume_specification[ String::push ](s: &mut String, c: char)
    ensures
        final(s)@ == old(s)@.push(c),
;

/// The characters of `s`, in order.
pub fn chars_of(s: &str) -> (v: Vec<char>)
    ensures
        v@ == s@,
{
    let mut v: Vec<char> = Vec::new();
    for c in it: s.chars()
        invariant
            it.seq() == s@,
            v@ == s@.take(it.index() as int),
    {
        v.push(c);
    }
    v
}

/// The string that holds the characters of `v`, in order.
pub fn string_of(v: &[char]) -> (s: String)
    ensures
        s@ == v@,
{
    let mut s = String::new();
    let mut i: usize = 0;
    while i < v.len()
        invariant
            i <= v.len(),
            s@ == v@.take(i as int),
        decreases v.len() - i,
    {
        s.push(v[i]);
        i += 1;
    }
    s
}

/// `c` with an ASCII capital letter replaced by its small letter.
pub open spec fn ascii_lower(c: char) -> char {
    if 'A' <= c && c <= 'Z' {
        ((c as u32) + 32) as char
    } else {
        c
    }
}

/// `c` with an ASCII capital letter replaced by its small letter.
pub fn to_ascii_lower(c: char) -> (r: char)
    ensures
        r == ascii_lower(c),
{
    if 'A' <= c && c <= 'Z' {
        ((c as u8) + 32u8) as char
    } else {
        c
    }
}

/// Whether `c` has the Unicode property White_Space.
pub open spec fn is_whitespace(c: char) -> bool {
    let n = c as u32;
    ||| 0x09 <= n <= 0x0D
    ||| n == 0x20
    ||| n == 0x85
    ||| n == 0xA0
    ||| n == 0x1680
    ||| 0x2000 <= n <= 0x200A
    ||| n == 0x2028
    ||| n == 0x2029
    ||| n == 0x202F
    ||| n == 0x205F
    ||| n == 0x3000
}

/// Whether `c` has the Unicode property White_Space.
pub fn char_is_whitespace(c: char) -> (b: bool)
    ensures
        b == is_whitespace(c),
{
    let n: u32 = c as u32;
    (0x09 <= n && n <= 0x0D) || n == 0x20 || n == 0x85 || n == 0xA0 || n == 0x1680 || (0x2000 <= n
        && n <= 0x200A) || n == 0x2028 || n == 0x2029 || n == 0x202F || n == 0x205F || n == 0x3000
}

/// A set of characters that can be stripped from the ends of a text.
#[derive(Clone, Copy, Debug)]
pub enum CharClass {
    /// The characters with the Unicode property White_Space.
    Whitespace,
    /// One character.
    Exactly(char),
}

impl CharClass {
    /// Whether `c` is of the class.
    pub open spec fn has(self, c: char) -> bool {
        match self {
            CharClass::Whitespace => is_whitespace(c),
            CharClass::Exactly(q) => c == q,
        }
    }

    /// Whether `c` is of the class.
    pub fn contains(&self, c: char) -> (b: bool)
        ensures
            b == self.has(c),
    {
        match self {
            CharClass::Whitespace => char_is_whitespace(c),
            CharClass::Exactly(q) => c == *q,
        }
    }
}

/// `s` without its longest prefix of characters of `class`.
pub open spec fn strip_start(s: Seq<char>, class: CharClass) -> Seq<char>
    decreases s.len(),
{
    if s.len() > 0 && class.has(s[0]) {
        strip_start(s.drop_first(), class)
    } else {
        s
    }
}

/// `s` without its longest suffix of characters of `class`.
pub open spec fn strip_end(s: Seq<char>, class: CharClass) -> Seq<char>
    decreases s.len(),
{
    if s.len() > 0 && class.has(s.last()) {
        strip_end(s.drop_last(), class)
    } else {
        s
    }
}

/// `s` without leading white space.
pub open spec fn trim_start(s: Seq<char>) -> Seq<char> {
    strip_start(s, CharClass::Whitespace)
}

/// `s` without leading and trailing white space.
pub open spec fn trim(s: Seq<char>) -> Seq<char> {
    strip_end(strip_start(s, CharClass::Whitespace), CharClass::Whitespace)
}

/// `s` without the run of `q` at its start and the run of `q` at its end.
pub open spec fn trim_matches(s: Seq<char>, q: char) -> Seq<char> {
    strip_end(strip_start(s, CharClass::Exactly(q)), CharClass::Exactly(q))
}

/// What `strip_start` leaves is a suffix of `s` that does not begin with a
/// character of `class`, and everything before it is of `class`.
pub proof fn lemma_strip_start(s: Seq<char>, class: CharClass)
    ensures
        strip_start(s, class).len() <= s.len(),
        strip_start(s, class) == s.skip(s.len() - strip_start(s, class).len()),
        forall|j: int| 0 <= j < s.len() - strip_start(s, class).len() ==> class.has(s[j]),
        strip_start(s, class).len() > 0 ==> !class.has(strip_start(s, class)[0]),
    decreases s.len(),
{
    if s.len() > 0 && class.has(s[0]) {
        let rest = s.drop_first();
        lemma_strip_start(rest, class);
        let kept = strip_start(rest, class);
        assert(rest.skip(rest.len() - kept.len()) =~= s.skip(s.len() - kept.len()));
        assert forall|j: int| 0 <= j < s.len() - kept.len() implies class.has(s[j]) by {
            if j > 0 {
                assert(s[j] == rest[j - 1]);
            }
        }
    } else {
        assert(s.skip(0) =~= s);
    }
}

/// What `strip_end` leaves is a prefix of `s` that does not end with a
/// character of `class`, and everything after it is of `class`.
pub proof fn lemma_strip_end(s: Seq<char>, class: CharClass)
    ensures
        strip_end(s, class).len() <= s.len(),
        strip_end(s, class) == s.take(strip_end(s, class).len() as int),
        forall|j: int| strip_end(s, class).len() <= j < s.len() ==> class.has(s[j]),
        strip_end(s, class).len() > 0 ==> !class.has(strip_end(s, class).last()),
    decreases s.len(),
{
    if s.len() > 0 && class.has(s.last()) {
        let rest = s.drop_last();
        lemma_strip_end(rest, class);
        let kept = strip_end(rest, class);
        assert(rest.take(kept.len() as int) =~= s.take(kept.len() as int));
        assert forall|j: int| kept.len() <= j < s.len() implies class.has(s[j]) by {
            if j < rest.len() {
                assert(s[j] == rest[j]);
            }
        }
    } else {
        assert(s.take(s.len() as int) =~= s);
    }
}

/// The part of `s` between `lo` and `hi` without its leading characters of
/// `class`: the index where what is left begins.
pub fn strip_start_at(s: &[char], lo: usize, hi: usize, class: CharClass) -> (r: usize)
    requires
        lo <= hi <= s.len(),
    ensures
        lo <= r <= hi,
        s@.subrange(r as int, hi as int) == strip_start(s@.subrange(lo as int, hi as int), class),
{
    let mut i: usize = lo;
    while i < hi && class.contains(s[i])
        invariant
            lo <= i <= hi <= s.len(),
            strip_start(s@.subrange(lo as int, hi as int), class) == strip_start(
                s@.subrange(i as int, hi as int),
                class,
            ),
        decreases hi - i,
    {
        assert(s@.subrange(i as int, hi as int).drop_first() =~= s@.subrange(
            i as int + 1,
            hi as int,
        ));
        i += 1;
    }
    i
}

/// The part of `s` between `lo` and `hi` without its trailing characters of
/// `class`: the index where what is left ends.
pub fn strip_end_at(s: &[char], lo: usize, hi: usize, class: CharClass) -> (r: usize)
    requires
        lo <= hi <= s.len(),
    ensures
        lo <= r <= hi,
        s@.subrange(lo as int, r as int) == strip_end(s@.subrange(lo as int, hi as int), class),
{
    let mut i: usize = hi;
    while lo < i && class.contains(s[i - 1])
        invariant
            lo <= i <= hi <= s.len(),
            strip_end(s@.subrange(lo as int, hi as int), class) == strip_end(
                s@.subrange(lo as int, i as int),
                class,
            ),
        decreases i - lo,
    {
        assert(s@.subrange(lo as int, i as int).drop_last() =~= s@.subrange(
            lo as int,
            i as int - 1,
        ));
        i -= 1;
    }
    i
}

/// Whether `a` and `b` are equal when ASCII capitals count as their small
/// letters.
pub open spec fn eq_ignore_ascii_case(a: Seq<char>, b: Seq<char>) -> bool {
    &&& a.len() == b.len()
    &&& forall|k: int| 0 <= k < a.len() ==> ascii_lower(a[k]) == ascii_lower(b[k])
}

/// Whether `a` and `b` are equal when ASCII capitals count as their small
/// letters.
pub fn chars_eq_ignore_ascii_case(a: &[char], b: &[char]) -> (same: bool)
    ensures
        same == eq_ignore_ascii_case(a@, b@),
{
    if a.len() != b.len() {
        return false;
    }
    let mut k: usize = 0;
    while k < a.len()
        invariant
            k <= a.len(),
            a.len() == b.len(),
            forall|j: int| 0 <= j < k ==> ascii_lower(a@[j]) == ascii_lower(b@[j]),
        decreases a.len() - k,
    {
        if to_ascii_lower(a[k]) != to_ascii_lower(b[k]) {
            return false;
        }
        k += 1;
    }
    true
}

/// The pieces of `s` between the occurrences of `sep`. There is one piece more
/// than there are occurrences, so a text without `sep` is its own only piece
/// and the empty text has one empty piece.
pub open spec fn split(s: Seq<char>, sep: char) -> Seq<Seq<char>>
    decreases s.len(),
{
    if s.len() == 0 {
        seq![Seq::<char>::empty()]
    } else {
        let before = split(s.drop_last(), sep);
        if s.last() == sep {
            before.push(Seq::<char>::empty())
        } else {
            before.drop_last().push(before.last().push(s.last()))
        }
    }
}

/// The texts of `parts` in order, with `sep` between each two neighbours.
pub open spec fn join(parts: Seq<Seq<char>>, sep: Seq<char>) -> Seq<char>
    decreases parts.len(),
{
    if parts.len() == 0 {
        Seq::<char>::empty()
    } else if parts.len() == 1 {
        parts[0]
    } else {
        join(parts.drop_last(), sep) + sep + parts.last()
    }
}

/// Splitting a text that ends in `c`: a separator opens a new, empty piece; any
/// other character lengthens the last piece.
pub proof fn lemma_split_push(s: Seq<char>, c: char, sep: char)
    ensures
        split(s, sep).len() > 0,
        split(s.push(c), sep) == if c == sep {
            split(s, sep).push(Seq::<char>::empty())
        } else {
            split(s, sep).drop_last().push(split(s, sep).last().push(c))
        },
    decreases s.len(),
{
    assert(s.push(c).drop_last() =~= s);
    if s.len() > 0 {
        lemma_split_push(s.drop_last(), s.last(), sep);
        assert(s.drop_last().push(s.last()) =~= s);
    }
}

/// Joining one part more: the separator comes before it unless it is the
/// first.
pub proof fn lemma_join_push(parts: Seq<Seq<char>>, last: Seq<char>, sep: Seq<char>)
    ensures
        join(parts.push(last), sep) == if parts.len() == 0 {
            last
        } else {
            join(parts, sep) + sep + last
        },
{
    assert(parts.push(last).drop_last() =~= parts);
}

/// Appends the characters of `s` from `lo` to `hi` to `out`.
pub fn append_range(out: &mut Vec<char>, s: &[char], lo: usize, hi: usize)
    requires
        lo <= hi <= s.len(),
    ensures
        final(out)@ == old(out)@ + s@.subrange(lo as int, hi as int),
{
    let mut i: usize = lo;
    while i < hi
        invariant
            lo <= i <= hi <= s.len(),
            out@ == old(out)@ + s@.subrange(lo as int, i as int),
        decreases hi - i,
    {
        out.push(s[i]);
        i += 1;
    }
}

/// Whether `a` and `b` hold the same characters.
pub fn chars_equal(a: &[char], b: &[char]) -> (same: bool)
    ensures
        same == (a@ == b@),
{
    if a.len() != b.len() {
        return false;
    }
    let mut k: usize = 0;
    while k < a.len()
        invariant
            k <= a.len(),
            a.len() == b.len(),
            forall|j: int| 0 <= j < k ==> a@[j] == b@[j],
        decreases a.len() - k,
    {
        if a[k] != b[k] {
            return false;
        }
        k += 1;
    }
    assert(a@ =~= b@);
    true
}

/// How often `c` stands in `s`.
pub open spec fn count_of(s: Seq<char>, c: char) -> nat
    decreases s.len(),
{
    if s.len() == 0 {
        0
    } else if s.last() == c {
        count_of(s.drop_last(), c) + 1
    } else {
        count_of(s.drop_last(), c)
    }
}

/// What two texts hold together, they hold one after the other.
pub proof fn lemma_count_of_add(a: Seq<char>, b: Seq<char>, c: char)
    ensures
        count_of(a + b, c) == count_of(a, c) + count_of(b, c),
    decreases b.len(),
{
    if b.len() == 0 {
        assert(a + b =~= a);
    } else {
        assert((a + b).drop_last() =~= a + b.drop_last());
        lemma_count_of_add(a, b.drop_last(), c);
    }
}

/// A text in which `c` does not stand holds it zero times.
pub proof fn lemma_count_of_absent(s: Seq<char>, c: char)
    requires
        forall|j: int| 0 <= j < s.len() ==> s[j] != c,
    ensures
        count_of(s, c) == 0,
    decreases s.len(),
{
    if s.len() > 0 {
        lemma_count_of_absent(s.drop_last(), c);
    }
}

/// A text has one piece more than it has separators, no piece holds the
/// separator, and no piece is longer than the text.
pub proof fn lemma_split_pieces(s: Seq<char>, sep: char)
    ensures
        split(s, sep).len() == count_of(s, sep) + 1,
        forall|k: int, j: int|
            0 <= k < split(s, sep).len() && 0 <= j < split(s, sep)[k].len() ==> split(
                s,
                sep,
            )[k][j] != sep,
        forall|k: int| 0 <= k < split(s, sep).len() ==> split(s, sep)[k].len() <= s.len(),
    decreases s.len(),
{
    if s.len() > 0 {
        lemma_split_pieces(s.drop_last(), sep);
    }
}

/// Joining parts that do not hold `c` gives a text that holds `c` as often
/// as the separators between the parts do.
pub proof fn lemma_join_count(parts: Seq<Seq<char>>, sep: Seq<char>, c: char)
    requires
        forall|k: int, j: int| 0 <= k < parts.len() && 0 <= j < parts[k].len() ==> parts[k][j] != c,
    ensures
        parts.len() == 0 ==> count_of(join(parts, sep), c) == 0,
        parts.len() > 0 ==> count_of(join(parts, sep), c) == (parts.len() - 1) * count_of(sep, c),
    decreases parts.len(),
{
    if parts.len() == 1 {
        lemma_count_of_absent(parts[0], c);
    } else if parts.len() > 1 {
        let init = parts.drop_last();
        lemma_join_count(init, sep, c);
        lemma_count_of_absent(parts.last(), c);
        lemma_count_of_add(join(init, sep), sep, c);
        lemma_count_of_add(join(init, sep) + sep, parts.last(), c);
        assert((parts.len() - 1) * count_of(sep, c) == (init.len() - 1) * count_of(sep, c)
            + count_of(sep, c)) by (nonlinear_arith)
            requires
                init.len() == parts.len() - 1,
        ;
    }
}

/// Trimming takes characters away at the two ends only: what is left stands
/// in `s` from some index on.
pub proof fn lemma_trim_is_part(s: Seq<char>)
    ensures
        exists|lo: int|
            0 <= lo && lo + trim(s).len() <= s.len() && trim(s) == #[trigger] s.subrange(
                lo,
                lo + trim(s).len(),
            ),
{
    let class = CharClass::Whitespace;
    lemma_strip_start(s, class);
    let mid = strip_start(s, class);
    lemma_strip_end(mid, class);
    let lo = s.len() - mid.len();
    assert(trim(s) =~= s.subrange(lo, lo + trim(s).len()));
}

/// Taking a run of one character from both ends takes characters away at the
/// two ends only.
pub proof fn lemma_trim_matches_is_part(s: Seq<char>, q: char)
    ensures
        exists|lo: int|
            0 <= lo && lo + trim_matches(s, q).len() <= s.len() && trim_matches(s, q)
                == #[trigger] s.subrange(lo, lo + trim_matches(s, q).len()),
{
    let class = CharClass::Exactly(q);
    lemma_strip_start(s, class);
    let mid = strip_start(s, class);
    lemma_strip_end(mid, class);
    let lo = s.len() - mid.len();
    assert(trim_matches(s, q) =~= s.subrange(lo, lo + trim_matches(s, q).len()));
}

/// Whether `s` begins with `prefix`.
pub open spec fn has_prefix(s: Seq<char>, prefix: Seq<char>) -> bool {
    prefix.len() <= s.len() && s.take(prefix.len() as int) == prefix
}

/// The index of the first `c` of `s` at or after `from`, or the length of `s`
/// where there is none.
pub open spec fn position_from(s: Seq<char>, c: char, from: int) -> int
    decreases s.len() - from,
{
    if from >= s.len() {
        s.len() as int
    } else if s[from] == c {
        from
    } else {
        position_from(s, c, from + 1)
    }
}

/// The index of the first `c` of `s`, or the length of `s`.
pub open spec fn position_of(s: Seq<char>, c: char) -> int {
    position_from(s, c, 0)
}

/// Whether `s` begins with `prefix`.
pub fn starts_with(s: &[char], prefix: &[char]) -> (b: bool)
    ensures
        b == has_prefix(s@, prefix@),
{
    if prefix.len() > s.len() {
        return false;
    }
    let head = &s[0..prefix.len()];
    assert(head@ =~= s@.take(prefix@.len() as int));
    chars_equal(head, prefix)
}

/// The index of the first `c` of `s`, or the length of `s`.
pub fn find_char(s: &[char], c: char) -> (at: usize)
    ensures
        at as int == position_of(s@, c),
        at <= s.len(),
{
    let mut i: usize = 0;
    while i < s.len() && s[i] != c
        invariant
            i <= s.len(),
            position_of(s@, c) == position_from(s@, c, i as int),
        decreases s.len() - i,
    {
        i += 1;
    }
    i
}

/// `line` without the carriage return at its end, if it has one.
pub open spec fn without_return(line: Seq<char>) -> Seq<char> {
    if line.len() > 0 && line.last() == '\r' {
        line.drop_last()
    } else {
        line
    }
}

/// The lines of `s`. A line ends with a line feed, or with a carriage return
/// and a line feed, which are not part of it, or with the text. Nothing
/// follows the last line feed of a text that ends in one, and a carriage
/// return at the end of the text stays.
pub open spec fn text_lines(s: Seq<char>) -> Seq<Seq<char>> {
    let pieces = split(s, '\n');
    let ended = pieces.drop_last().map_values(|piece: Seq<char>| without_return(piece));
    if pieces.last().len() > 0 {
        ended.push(pieces.last())
    } else {
        ended
    }
}

/// The texts that `lines` hold.
pub open spec fn line_texts(lines: Seq<Vec<char>>) -> Seq<Seq<char>> {
    lines.map_values(|line: Vec<char>| line@)
}

/// The lines of `s`.
pub fn lines_of(s: &[char]) -> (lines: Vec<Vec<char>>)
    ensures
        line_texts(lines@) == text_lines(s@),
{
    let n = s.len();
    let mut lines: Vec<Vec<char>> = Vec::new();
    let mut start: usize = 0;
    let mut i: usize = 0;
    let ghost mut done: Seq<Seq<char>> = Seq::empty();
    proof {
        assert(s@.take(0) =~= Seq::<char>::empty());
        assert(s@.subrange(0, 0) =~= Seq::<char>::empty());
        assert(seq![Seq::<char>::empty()] =~= done.push(Seq::<char>::empty()));
        assert(line_texts(lines@) =~= done.map_values(|piece: Seq<char>| without_return(piece)));
    }
    while i < n
        invariant
            start <= i <= n,
            n == s.len(),
            split(s@.take(i as int), '\n') == done.push(s@.subrange(start as int, i as int)),
            line_texts(lines@) == done.map_values(|piece: Seq<char>| without_return(piece)),
        decreases n - i,
    {
        let ghost piece = s@.subrange(start as int, i as int);
        proof {
            lemma_split_push(s@.take(i as int), s@[i as int], '\n');
            assert(s@.take(i as int).push(s@[i as int]) =~= s@.take(i as int + 1));
        }
        if s[i] == '\n' {
            let end = if start < i && s[i - 1] == '\r' {
                i - 1
            } else {
                i
            };
            let mut line: Vec<char> = Vec::new();
            append_range(&mut line, s, start, end);
            proof {
                assert(piece.len() > 0 ==> piece.last() == s@[i as int - 1]);
                assert(line@ =~= without_return(piece));
                done.lemma_push_map_commute(|piece: Seq<char>| without_return(piece), piece);
                let before = lines@;
                assert(line_texts(before.push(line)) =~= line_texts(before).push(line@));
                done = done.push(piece);
                assert(s@.subrange(i as int + 1, i as int + 1) =~= Seq::<char>::empty());
            }
            lines.push(line);
            start = i + 1;
        } else {
            proof {
                assert(piece.push(s@[i as int]) =~= s@.subrange(start as int, i as int + 1));
                assert(done.push(piece).drop_last() =~= done);
            }
        }
        i += 1;
    }
    proof {
        assert(s@.take(n as int) =~= s@);
        assert(done.push(s@.subrange(start as int, n as int)).drop_last() =~= done);
    }
    if start < n {
        let mut line: Vec<char> = Vec::new();
        append_range(&mut line, s, start, n);
        proof {
            let before = lines@;
            assert(line_texts(before.push(line)) =~= line_texts(before).push(line@));
        }
        lines.push(line);
    }
    lines
}

/// The first `c` of a text stands where the text before it holds no `c`.
pub proof fn lemma_position_of(s: Seq<char>, c: char, k: int)
    requires
        0 <= k <= s.len(),
        forall|j: int| 0 <= j < k ==> s[j] != c,
        k < s.len() ==> s[k] == c,
    ensures
        position_of(s, c) == k,
{
    lemma_position_from(s, c, 0, k);
}

proof fn lemma_position_from(s: Seq<char>, c: char, from: int, k: int)
    requires
        0 <= from <= k <= s.len(),
        forall|j: int| from <= j < k ==> s[j] != c,
        k < s.len() ==> s[k] == c,
    ensures
        position_from(s, c, from) == k,
    decreases k - from,
{
    if from < k {
        lemma_position_from(s, c, from + 1, k);
    }
}

/// A text without the separator, put behind another, lengthens its last
/// piece.
pub proof fn lemma_split_append(s: Seq<char>, tail: Seq<char>, sep: char)
    requires
        forall|j: int| 0 <= j < tail.len() ==> tail[j] != sep,
    ensures
        split(s, sep).len() > 0,
        split(s + tail, sep) == split(s, sep).drop_last().push(split(s, sep).last() + tail),
    decreases tail.len(),
{
    lemma_split_push(s, sep, sep);
    let pieces = split(s, sep);
    if tail.len() == 0 {
        assert(s + tail =~= s);
        assert(pieces.last() + tail =~= pieces.last());
        assert(pieces.drop_last().push(pieces.last()) =~= pieces);
    } else {
        let init = tail.drop_last();
        lemma_split_append(s, init, sep);
        lemma_split_push(s + init, tail.last(), sep);
        assert((s + init).push(tail.last()) =~= s + tail);
        assert((pieces.last() + init).push(tail.last()) =~= pieces.last() + tail);
        assert(pieces.drop_last().push(pieces.last() + init).drop_last() =~= pieces.drop_last());
    }
}

/// Parts that do not hold the separator are the pieces of what they are
/// joined to.
pub proof fn lemma_split_join(parts: Seq<Seq<char>>, sep: char)
    requires
        parts.len() > 0,
        forall|k: int, j: int| 0 <= k < parts.len() && 0 <= j < parts[k].len() ==> parts[k][j] != sep,
    ensures
        split(join(parts, seq![sep]), sep) == parts,
    decreases parts.len(),
{
    let none = Seq::<char>::empty();
    if parts.len() == 1 {
        lemma_split_append(none, parts[0], sep);
        assert(none + parts[0] =~= parts[0]);
        assert(split(none, sep).drop_last().push(split(none, sep).last() + parts[0]) =~= parts);
    } else {
        let init = parts.drop_last();
        lemma_split_join(init, sep);
        let joined = join(init, seq![sep]);
        lemma_split_push(joined, sep, sep);
        assert(joined + seq![sep] =~= joined.push(sep));
        lemma_split_append(joined.push(sep), parts.last(), sep);
        assert(init.push(none).drop_last().push(none + parts.last()) =~= parts);
    }
}

} // verus!
