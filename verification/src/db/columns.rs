//! The column lists of `INSERT` statements, without their `id` column.

use crate::db::scan::{keyword_at, match_kw_ci};
use crate::db::Rewritten;
use crate::text::{
    append_range, chars_eq_ignore_ascii_case, chars_equal, count_of, eq_ignore_ascii_case, join,
    lemma_join_count, lemma_join_push, lemma_split_pieces, lemma_split_push, lemma_trim_is_part,
    lemma_trim_matches_is_part, split, strip_end_at, strip_start_at, trim, trim_matches, CharClass,
};
use vstd::prelude::*;

verus! {

/// The column name that is removed.
pub open spec fn id_name() -> Seq<char> {
    seq!['i', 'd']
}

/// The same name between backticks, as it is left when backticks stand inside
/// another pair of quotes.
pub open spec fn backticked_id_name() -> Seq<char> {
    seq!['`', 'i', 'd', '`']
}

/// A token without the quoting around it: first the backticks at both ends are
/// taken off, then the double quotes, then the single quotes.
pub open spec fn bare_name(token: Seq<char>) -> Seq<char> {
    trim_matches(trim_matches(trim_matches(token, '`'), '"'), '\'')
}

/// Whether a token names the `id` column, whatever its case and quoting.
pub open spec fn is_id_token(token: Seq<char>) -> bool {
    ||| eq_ignore_ascii_case(bare_name(token), id_name())
    ||| eq_ignore_ascii_case(bare_name(token), backticked_id_name())
}

/// Each piece without the white space around it.
pub open spec fn trimmed(pieces: Seq<Seq<char>>) -> Seq<Seq<char>> {
    pieces.map_values(|piece: Seq<char>| trim(piece))
}

/// The tokens that do not name the `id` column, in their order.
pub open spec fn without_id(tokens: Seq<Seq<char>>) -> Seq<Seq<char>> {
    tokens.filter(|token: Seq<char>| !is_id_token(token))
}

/// The tokens of a column list: its pieces between commas, each without the
/// white space around it.
pub open spec fn column_tokens(cols: Seq<char>) -> Seq<Seq<char>> {
    trimmed(split(cols, ','))
}

/// The tokens of a column list that do not name the `id` column, in their
/// order.
pub open spec fn surviving_tokens(cols: Seq<char>) -> Seq<Seq<char>> {
    without_id(column_tokens(cols))
}

/// What stands between two columns of a rewritten list.
pub open spec fn list_separator() -> Seq<char> {
    seq![',', ' ']
}

/// Whether some token of a column list names the `id` column.
pub open spec fn names_id_somewhere(cols: Seq<char>) -> bool {
    exists|k: int|
        0 <= k < column_tokens(cols).len() && is_id_token(#[trigger] column_tokens(cols)[k])
}

/// A column list without its `id` tokens. A list that names `id` is written
/// anew: the surviving tokens, as they were written, with a comma and a space
/// between each two. A list that does not name `id` stays as it is.
pub open spec fn strip_id(cols: Seq<char>) -> Seq<char> {
    if names_id_somewhere(cols) {
        join(surviving_tokens(cols), list_separator())
    } else {
        cols
    }
}

/// Whether the characters of `s` from `lo` to `hi` name the `id` column.
fn names_id(s: &[char], lo: usize, hi: usize) -> (b: bool)
    requires
        lo <= hi <= s.len(),
    ensures
        b == is_id_token(s@.subrange(lo as int, hi as int)),
{
    let ghost token = s@.subrange(lo as int, hi as int);
    let a1 = strip_start_at(s, lo, hi, CharClass::Exactly('`'));
    let b1 = strip_end_at(s, a1, hi, CharClass::Exactly('`'));
    assert(s@.subrange(a1 as int, b1 as int) == trim_matches(token, '`'));
    let a2 = strip_start_at(s, a1, b1, CharClass::Exactly('"'));
    let b2 = strip_end_at(s, a2, b1, CharClass::Exactly('"'));
    let a3 = strip_start_at(s, a2, b2, CharClass::Exactly('\''));
    let b3 = strip_end_at(s, a3, b2, CharClass::Exactly('\''));
    assert(s@.subrange(a3 as int, b3 as int) == bare_name(token));
    let bare = &s[a3..b3];
    let id: [char; 2] = ['i', 'd'];
    let ticked: [char; 4] = ['`', 'i', 'd', '`'];
    assert(id@ =~= id_name());
    assert(ticked@ =~= backticked_id_name());
    chars_eq_ignore_ascii_case(bare, id.as_slice()) || chars_eq_ignore_ascii_case(
        bare,
        ticked.as_slice(),
    )
}

/// Where nothing names `id`, every token survives.
proof fn lemma_without_id_keeps_all(tokens: Seq<Seq<char>>)
    requires
        forall|k: int| 0 <= k < tokens.len() ==> !is_id_token(tokens[k]),
    ensures
        without_id(tokens) == tokens,
    decreases tokens.len(),
{
    let keep = |token: Seq<char>| !is_id_token(token);
    if tokens.len() == 0 {
        tokens.lemma_filter_len(keep);
        assert(tokens.filter(keep) =~= tokens);
    } else {
        let init = tokens.drop_last();
        lemma_without_id_keeps_all(init);
        init.lemma_filter_push(tokens.last(), keep);
        assert(init.push(tokens.last()) =~= tokens);
    }
}

/// Where something names `id`, fewer tokens survive than there were.
proof fn lemma_without_id_drops(tokens: Seq<Seq<char>>, k: int)
    requires
        0 <= k < tokens.len(),
        is_id_token(tokens[k]),
    ensures
        without_id(tokens).len() < tokens.len(),
    decreases tokens.len(),
{
    let keep = |token: Seq<char>| !is_id_token(token);
    let init = tokens.drop_last();
    init.lemma_filter_push(tokens.last(), keep);
    init.lemma_filter_len(keep);
    assert(init.push(tokens.last()) =~= tokens);
    if k < tokens.len() - 1 {
        lemma_without_id_drops(init, k);
    }
}

/// A list names `id` exactly where fewer tokens survive than it has.
proof fn lemma_names_id_iff_fewer_survive(cols: Seq<char>)
    ensures
        names_id_somewhere(cols) <==> surviving_tokens(cols).len() < column_tokens(cols).len(),
{
    let tokens = column_tokens(cols);
    if names_id_somewhere(cols) {
        let k = choose|k: int| 0 <= k < tokens.len() && is_id_token(#[trigger] tokens[k]);
        lemma_without_id_drops(tokens, k);
    } else {
        lemma_without_id_keeps_all(tokens);
    }
}

/// One piece more: its token survives unless it names the `id` column.
proof fn lemma_survivors_push(pieces: Seq<Seq<char>>, piece: Seq<char>)
    ensures
        without_id(trimmed(pieces.push(piece))) == if is_id_token(trim(piece)) {
            without_id(trimmed(pieces))
        } else {
            without_id(trimmed(pieces)).push(trim(piece))
        },
{
    let f = |piece: Seq<char>| trim(piece);
    let keep = |token: Seq<char>| !is_id_token(token);
    pieces.lemma_push_map_commute(f, piece);
    pieces.map_values(f).lemma_filter_push(f(piece), keep);
}

/// Removes from a column list every token that names the `id` column.
///
/// The list is cut at its commas. A token is a piece without the white space
/// around it; it names `id` where, with its quoting taken off, it reads `id`
/// in any case. Where a token names `id`, the tokens that are left are
/// written as they were, joined by a comma and a space, and where none is
/// left the result is empty. Where no token names `id` the list comes back
/// as it is.
pub fn strip_id_tokens(cols: &[char]) -> (out: Vec<char>)
    ensures
        out@ == strip_id(cols@),
{
    let n = cols.len();
    let mut out: Vec<char> = Vec::new();
    let mut wrote = false;
    let mut removed = false;
    let mut start: usize = 0;
    let mut i: usize = 0;
    let ghost mut done: Seq<Seq<char>> = Seq::empty();
    proof {
        assert(cols@.take(0) =~= Seq::<char>::empty());
        assert(cols@.subrange(0, 0) =~= Seq::<char>::empty());
        assert(seq![Seq::<char>::empty()] =~= done.push(Seq::<char>::empty()));
        assert(trimmed(done) =~= Seq::<Seq<char>>::empty());
        lemma_without_id_keeps_all(trimmed(done));
    }
    loop
        invariant_except_break
            start <= i <= n,
            n == cols.len(),
            split(cols@.take(i as int), ',') == done.push(
                cols@.subrange(start as int, i as int),
            ),
            out@ == join(without_id(trimmed(done)), list_separator()),
            wrote == (without_id(trimmed(done)).len() > 0),
            without_id(trimmed(done)).len() <= done.len(),
            removed == (without_id(trimmed(done)).len() < done.len()),
        ensures
            out@ == join(surviving_tokens(cols@), list_separator()),
            removed == (surviving_tokens(cols@).len() < column_tokens(cols@).len()),
        decreases n - i,
    {
        let ghost piece = cols@.subrange(start as int, i as int);
        if i == n || cols[i] == ',' {
            let lo = strip_start_at(cols, start, i, CharClass::Whitespace);
            let hi = strip_end_at(cols, lo, i, CharClass::Whitespace);
            assert(cols@.subrange(lo as int, hi as int) == trim(piece));
            let ghost before = without_id(trimmed(done));
            if names_id(cols, lo, hi) {
                removed = true;
            } else {
                if wrote {
                    out.push(',');
                    out.push(' ');
                }
                append_range(&mut out, cols, lo, hi);
                wrote = true;
                proof {
                    lemma_join_push(before, trim(piece), list_separator());
                    assert(before.len() > 0 ==> out@ =~= join(before, list_separator())
                        + list_separator() + trim(piece));
                    assert(before.len() == 0 ==> out@ =~= trim(piece));
                }
            }
            proof {
                lemma_survivors_push(done, piece);
                done = done.push(piece);
            }
            if i == n {
                proof {
                    assert(cols@.take(n as int) =~= cols@);
                }
                break ;
            }
            proof {
                lemma_split_push(cols@.take(i as int), cols@[i as int], ',');
                assert(cols@.take(i as int).push(cols@[i as int]) =~= cols@.take(i as int + 1));
                assert(cols@.subrange(i as int + 1, i as int + 1) =~= Seq::<char>::empty());
            }
            start = i + 1;
        } else {
            proof {
                lemma_split_push(cols@.take(i as int), cols@[i as int], ',');
                assert(cols@.take(i as int).push(cols@[i as int]) =~= cols@.take(i as int + 1));
                assert(piece.push(cols@[i as int]) =~= cols@.subrange(
                    start as int,
                    i as int + 1,
                ));
                assert(done.push(piece).drop_last() =~= done);
            }
        }
        i += 1;
    }
    proof {
        lemma_names_id_iff_fewer_survive(cols@);
    }
    if removed {
        out
    } else {
        let mut same: Vec<char> = Vec::new();
        append_range(&mut same, cols, 0, n);
        assert(cols@.subrange(0, n as int) =~= cols@);
        same
    }
}

/// The keyword that a column list follows, in small letters.
pub open spec fn insert_keyword() -> Seq<char> {
    seq!['i', 'n', 's', 'e', 'r', 't']
}

/// The index of the first `(` of `doc` at or after `from`, or the length of
/// `doc` where there is none.
pub open spec fn next_open_paren(doc: Seq<char>, from: int) -> int
    decreases doc.len() - from,
{
    if from >= doc.len() {
        doc.len() as int
    } else if doc[from] == '(' {
        from
    } else {
        next_open_paren(doc, from + 1)
    }
}

/// The index of the `)` that brings the nesting depth to zero, read from `pos`
/// at depth `depth`, or the length of `doc` where the depth never gets there.
/// Every parenthesis counts, in a literal or not.
pub open spec fn list_close(doc: Seq<char>, pos: int, depth: nat) -> int
    decreases doc.len() - pos,
{
    if pos >= doc.len() {
        doc.len() as int
    } else if doc[pos] == '(' {
        list_close(doc, pos + 1, depth + 1)
    } else if doc[pos] == ')' {
        if depth <= 1 {
            pos
        } else {
            list_close(doc, pos + 1, (depth - 1) as nat)
        }
    } else {
        list_close(doc, pos + 1, depth)
    }
}

/// Whether a column list opens at `open`: a `(` stands there, and the `)`
/// that closes it stands in `doc`.
pub open spec fn column_list_at(doc: Seq<char>, open: int) -> bool {
    &&& 0 <= open < doc.len()
    &&& doc[open] == '('
    &&& list_close(doc, open + 1, 1) < doc.len()
}

/// The text of the column list that opens at `open`: what stands between its
/// parentheses.
pub open spec fn column_list(doc: Seq<char>, open: int) -> Seq<char> {
    doc.subrange(open + 1, list_close(doc, open + 1, 1))
}

/// The next `(` stands at or behind `from`, with no `(` between.
pub proof fn lemma_next_open_paren(doc: Seq<char>, from: int)
    requires
        0 <= from <= doc.len(),
    ensures
        from <= next_open_paren(doc, from) <= doc.len(),
        next_open_paren(doc, from) < doc.len() ==> doc[next_open_paren(doc, from)] == '(',
        forall|j: int| from <= j < next_open_paren(doc, from) ==> doc[j] != '(',
    decreases doc.len() - from,
{
    if from < doc.len() && doc[from] != '(' {
        lemma_next_open_paren(doc, from + 1);
    }
}

/// A list closes at or behind the place from which it is read, at a `)`.
pub proof fn lemma_list_close(doc: Seq<char>, pos: int, depth: nat)
    requires
        0 <= pos <= doc.len(),
    ensures
        pos <= list_close(doc, pos, depth) <= doc.len(),
        list_close(doc, pos, depth) < doc.len() ==> doc[list_close(doc, pos, depth)] == ')',
    decreases doc.len() - pos,
{
    if pos < doc.len() {
        if doc[pos] == '(' {
            lemma_list_close(doc, pos + 1, depth + 1);
        } else if doc[pos] == ')' {
            if depth > 1 {
                lemma_list_close(doc, pos + 1, (depth - 1) as nat);
            }
        } else {
            lemma_list_close(doc, pos + 1, depth);
        }
    }
}

/// The rewriting of `doc` from `i` on.
///
/// Where the keyword stands at `i` and a column list opens at the next `(`,
/// the text up to and with that `(` is kept, the list is replaced by
/// `strip_id` of it, the `)` is kept, and the rewriting goes on behind it;
/// the list counts as changed where what is written differs from what was
/// there, which is where it named `id`. Where the keyword stands at `i` and
/// no `(` follows, or the list that opens there is never closed, the rest of
/// `doc`, from the keyword on, is kept as it is. Any other character is kept.
pub open spec fn columns_from(doc: Seq<char>, i: int) -> Rewritten
    decreases doc.len() - i,
    via columns_from_decreases
{
    if i < 0 || i >= doc.len() {
        Rewritten { text: Seq::empty(), count: 0 }
    } else if keyword_at(doc, i, insert_keyword()) {
        let open = next_open_paren(doc, i + 6);
        if column_list_at(doc, open) {
            let raw = column_list(doc, open);
            let rest = columns_from(doc, list_close(doc, open + 1, 1) + 1);
            Rewritten {
                text: doc.subrange(i, open + 1) + strip_id(raw) + seq![')'] + rest.text,
                count: if strip_id(raw) != raw {
                    rest.count + 1
                } else {
                    rest.count
                },
            }
        } else {
            Rewritten { text: doc.skip(i), count: 0 }
        }
    } else {
        let rest = columns_from(doc, i + 1);
        Rewritten { text: seq![doc[i]] + rest.text, count: rest.count }
    }
}

#[via_fn]
proof fn columns_from_decreases(doc: Seq<char>, i: int) {
    if 0 <= i < doc.len() && keyword_at(doc, i, insert_keyword()) {
        assert(insert_keyword().len() == 6);
        lemma_next_open_paren(doc, i + 6);
        let open = next_open_paren(doc, i + 6);
        if column_list_at(doc, open) {
            lemma_list_close(doc, open + 1, 1);
        }
    }
}

/// `doc` with the `id` column taken out of every column list.
pub open spec fn columns_rewritten(doc: Seq<char>) -> Rewritten {
    columns_from(doc, 0)
}

fn find_open_paren(doc: &[char], from: usize) -> (open: usize)
    requires
        from <= doc.len(),
    ensures
        open as int == next_open_paren(doc@, from as int),
        from <= open <= doc.len(),
{
    let mut i: usize = from;
    while i < doc.len() && doc[i] != '('
        invariant
            from <= i <= doc.len(),
            next_open_paren(doc@, from as int) == next_open_paren(doc@, i as int),
        decreases doc.len() - i,
    {
        i += 1;
    }
    i
}

fn find_list_close(doc: &[char], from: usize) -> (close: usize)
    requires
        1 <= from <= doc.len(),
    ensures
        close as int == list_close(doc@, from as int, 1),
        from <= close <= doc.len(),
{
    let mut i: usize = from;
    let mut depth: usize = 1;
    while i < doc.len()
        invariant
            from <= i <= doc.len(),
            1 <= from,
            1 <= depth <= i - from + 1,
            list_close(doc@, from as int, 1) == list_close(doc@, i as int, depth as nat),
        decreases doc.len() - i,
    {
        if doc[i] == '(' {
            depth += 1;
        } else if doc[i] == ')' {
            if depth == 1 {
                return i;
            }
            depth -= 1;
        }
        i += 1;
    }
    i
}

/// Takes the `id` column out of the column list of every `INSERT` of `input`.
///
/// Each place where `insert` stands, in any case, is a statement: the text up
/// to its first `(` is kept, and the list from there to the matching `)` is
/// rewritten by `strip_id_tokens`. The matching `)` is found by counting
/// parentheses, whether they stand in a literal or not. `changed_count` is
/// raised by one for each list that comes out different from what it was:
/// each that named `id`. Where no `(` follows the keyword, or the list is
/// never closed, the rest of `input` is left as it is.
pub fn remove_id_from_insert_columns(input: &[char], changed_count: &mut usize) -> (out: Vec<char>)
    requires
        *old(changed_count) + columns_rewritten(input@).count <= usize::MAX,
    ensures
        out@ == columns_rewritten(input@).text,
        *final(changed_count) == *old(changed_count) + columns_rewritten(input@).count,
{
    let n = input.len();
    let keyword: [char; 6] = ['i', 'n', 's', 'e', 'r', 't'];
    assert(keyword@ =~= insert_keyword());
    let mut out: Vec<char> = Vec::new();
    let mut i: usize = 0;
    while i < n
        invariant
            i <= n,
            n == input.len(),
            keyword@ == insert_keyword(),
            columns_rewritten(input@).text == out@ + columns_from(input@, i as int).text,
            *old(changed_count) + columns_rewritten(input@).count == *changed_count + columns_from(
                input@,
                i as int,
            ).count,
            *old(changed_count) + columns_rewritten(input@).count <= usize::MAX,
        decreases n - i,
    {
        let ghost before = out@;
        if match_kw_ci(input, i, keyword.as_slice()) {
            let open = find_open_paren(input, i + 6);
            proof {
                lemma_next_open_paren(input@, i as int + 6);
            }
            let close = if open < n {
                find_list_close(input, open + 1)
            } else {
                n
            };
            if close >= n {
                append_range(&mut out, input, i, n);
                assert(input@.skip(i as int) =~= input@.subrange(i as int, n as int));
                i = n;
            } else {
                let raw = &input[open + 1..close];
                let cleaned = strip_id_tokens(raw);
                append_range(&mut out, input, i, open + 1);
                if !chars_equal(cleaned.as_slice(), raw) {
                    *changed_count += 1;
                }
                let mut cleaned = cleaned;
                let ghost cleaned_text = cleaned@;
                out.append(&mut cleaned);
                out.push(')');
                let ghost rest = columns_from(input@, close as int + 1);
                assert(out@ =~= before + (input@.subrange(i as int, open as int + 1) + cleaned_text
                    + seq![')']));
                assert(columns_from(input@, i as int).text =~= input@.subrange(
                    i as int,
                    open as int + 1,
                ) + cleaned_text + seq![')'] + rest.text);
                i = close + 1;
            }
        } else {
            out.push(input[i]);
            assert(out@ =~= before + seq![input@[i as int]]);
            i += 1;
        }
    }
    assert(out@ =~= out@ + Seq::<char>::empty());
    out
}

/// A document holds at least eight characters for each column list that is
/// counted, so the count stays far below the length.
pub proof fn lemma_columns_count_bound(doc: Seq<char>, i: int)
    requires
        0 <= i <= doc.len(),
    ensures
        8 * columns_from(doc, i).count <= doc.len() - i,
    decreases doc.len() - i,
{
    if i < doc.len() {
        if keyword_at(doc, i, insert_keyword()) {
            assert(insert_keyword().len() == 6);
            lemma_next_open_paren(doc, i + 6);
            let open = next_open_paren(doc, i + 6);
            if column_list_at(doc, open) {
                lemma_list_close(doc, open + 1, 1);
                lemma_columns_count_bound(doc, list_close(doc, open + 1, 1) + 1);
            }
        } else {
            lemma_columns_count_bound(doc, i + 1);
        }
    }
}

/// The number of column lists of `doc`, from `i` on, that name `id`.
pub open spec fn lists_naming_id(doc: Seq<char>, i: int) -> nat
    decreases doc.len() - i,
    via lists_naming_id_decreases
{
    if i < 0 || i >= doc.len() {
        0
    } else if keyword_at(doc, i, insert_keyword()) {
        let open = next_open_paren(doc, i + 6);
        if column_list_at(doc, open) {
            let rest = lists_naming_id(doc, list_close(doc, open + 1, 1) + 1);
            if names_id_somewhere(column_list(doc, open)) {
                rest + 1
            } else {
                rest
            }
        } else {
            0
        }
    } else {
        lists_naming_id(doc, i + 1)
    }
}

#[via_fn]
proof fn lists_naming_id_decreases(doc: Seq<char>, i: int) {
    if 0 <= i < doc.len() && keyword_at(doc, i, insert_keyword()) {
        assert(insert_keyword().len() == 6);
        lemma_next_open_paren(doc, i + 6);
        let open = next_open_paren(doc, i + 6);
        if column_list_at(doc, open) {
            lemma_list_close(doc, open + 1, 1);
        }
    }
}

/// A token that names `id` holds at least two characters.
proof fn lemma_id_token_len(token: Seq<char>)
    requires
        is_id_token(token),
    ensures
        token.len() >= 2,
{
    let a = trim_matches(token, '`');
    let b = trim_matches(a, '"');
    lemma_trim_matches_is_part(token, '`');
    lemma_trim_matches_is_part(a, '"');
    lemma_trim_matches_is_part(b, '\'');
    assert(id_name().len() == 2);
    assert(backticked_id_name().len() == 4);
}

/// Of the tokens of a column list, those that name `id` are left out and the
/// others are kept in their order: no token that survives names `id`, and a
/// token that does not name `id` stands, among those that survive, at the
/// place that the number of such tokens before it gives.
pub proof fn lemma_strip_id_elides_exactly_id(cols: Seq<char>)
    ensures
        names_id_somewhere(cols) ==> strip_id(cols) == join(
            surviving_tokens(cols),
            list_separator(),
        ),
        forall|k: int|
            0 <= k < surviving_tokens(cols).len() ==> !is_id_token(
                #[trigger] surviving_tokens(cols)[k],
            ),
        forall|k: int|
            0 <= k < column_tokens(cols).len() && !is_id_token(column_tokens(cols)[k]) ==> {
                let place = without_id(column_tokens(cols).take(k)).len() as int;
                &&& place < surviving_tokens(cols).len()
                &&& surviving_tokens(cols)[place] == #[trigger] column_tokens(cols)[k]
            },
        !names_id_somewhere(cols) ==> surviving_tokens(cols) == column_tokens(cols),
{
    let tokens = column_tokens(cols);
    let keep = |token: Seq<char>| !is_id_token(token);
    assert forall|k: int| 0 <= k < surviving_tokens(cols).len() implies !is_id_token(
        #[trigger] surviving_tokens(cols)[k],
    ) by {
        tokens.lemma_filter_pred(keep, k);
    }
    assert forall|k: int| 0 <= k < tokens.len() && !is_id_token(tokens[k]) implies {
        let place = without_id(tokens.take(k)).len() as int;
        &&& place < surviving_tokens(cols).len()
        &&& surviving_tokens(cols)[place] == #[trigger] tokens[k]
    } by {
        let head = tokens.take(k);
        let tail = tokens.skip(k + 1);
        assert(tokens =~= head.push(tokens[k]) + tail);
        Seq::filter_distributes_over_add(head.push(tokens[k]), tail, keep);
        head.lemma_filter_push(tokens[k], keep);
    }
    if !names_id_somewhere(cols) {
        lemma_without_id_keeps_all(tokens);
    }
}

/// A column list comes out different exactly where one of its tokens named
/// `id`: taking a token out changes the list, and nothing else does.
pub proof fn lemma_list_changes_iff_id_removed(cols: Seq<char>)
    ensures
        (strip_id(cols) != cols) <==> names_id_somewhere(cols),
{
    let pieces = split(cols, ',');
    let tokens = column_tokens(cols);
    let kept = surviving_tokens(cols);
    let keep = |token: Seq<char>| !is_id_token(token);
    if names_id_somewhere(cols) {
        let k = choose|k: int| 0 <= k < tokens.len() && is_id_token(#[trigger] tokens[k]);
        lemma_without_id_drops(tokens, k);
        lemma_split_pieces(cols, ',');
        assert forall|m: int, j: int| 0 <= m < kept.len() && 0 <= j < kept[m].len() implies kept[m][j]
            != ',' by {
            tokens.lemma_filter_contains_rev(keep, kept[m]);
            let src = choose|src: int| 0 <= src < tokens.len() && tokens[src] == kept[m];
            lemma_trim_is_part(pieces[src]);
        }
        lemma_join_count(kept, list_separator(), ',');
        assert(count_of(list_separator(), ',') == 1) by {
            reveal_with_fuel(count_of, 3);
            assert(list_separator().drop_last() =~= seq![',']);
            assert(seq![','].drop_last() =~= Seq::<char>::empty());
        }
        if kept.len() == 0 {
            lemma_id_token_len(tokens[k]);
            lemma_trim_is_part(pieces[k]);
            assert(strip_id(cols).len() == 0);
        } else {
            assert((kept.len() - 1) * 1 == kept.len() - 1) by (nonlinear_arith);
            assert(count_of(strip_id(cols), ',') < count_of(cols, ','));
        }
    }
}

/// Text before the first keyword is kept as it is: where the keyword stands
/// nowhere before `i`, the document comes out as its first `i` characters and
/// then the rewriting from `i` on. So a document without the keyword comes
/// out unchanged, with nothing counted.
pub proof fn lemma_columns_before_first_keyword(doc: Seq<char>, i: int)
    requires
        0 <= i <= doc.len(),
        forall|j: int| 0 <= j < i ==> !keyword_at(doc, j, insert_keyword()),
    ensures
        columns_rewritten(doc).text == doc.take(i) + columns_from(doc, i).text,
        columns_rewritten(doc).count == columns_from(doc, i).count,
    decreases i,
{
    if i == 0 {
        assert(doc.take(0) + columns_from(doc, 0).text =~= columns_from(doc, 0).text);
    } else {
        lemma_columns_before_first_keyword(doc, i - 1);
        assert(doc.take(i - 1) + (seq![doc[i - 1]] + columns_from(doc, i).text) =~= doc.take(i)
            + columns_from(doc, i).text);
    }
}

/// What the pass counts is the number of column lists that lost a token:
/// those that named `id`.
pub proof fn lemma_count_is_lists_naming_id(doc: Seq<char>, i: int)
    requires
        0 <= i <= doc.len(),
    ensures
        columns_from(doc, i).count == lists_naming_id(doc, i),
    decreases doc.len() - i,
{
    if i < doc.len() {
        if keyword_at(doc, i, insert_keyword()) {
            assert(insert_keyword().len() == 6);
            lemma_next_open_paren(doc, i + 6);
            let open = next_open_paren(doc, i + 6);
            if column_list_at(doc, open) {
                lemma_list_close(doc, open + 1, 1);
                lemma_list_changes_iff_id_removed(column_list(doc, open));
                lemma_count_is_lists_naming_id(doc, list_close(doc, open + 1, 1) + 1);
            }
        } else {
            lemma_count_is_lists_naming_id(doc, i + 1);
        }
    }
}

/// A document none of whose column lists names `id` comes out as it went in.
pub proof fn lemma_columns_unchanged_without_id(doc: Seq<char>, i: int)
    requires
        0 <= i <= doc.len(),
        lists_naming_id(doc, i) == 0,
    ensures
        columns_from(doc, i).text == doc.skip(i),
        columns_from(doc, i).count == 0,
    decreases doc.len() - i,
{
    if i < doc.len() {
        if keyword_at(doc, i, insert_keyword()) {
            assert(insert_keyword().len() == 6);
            lemma_next_open_paren(doc, i + 6);
            let open = next_open_paren(doc, i + 6);
            if column_list_at(doc, open) {
                lemma_list_close(doc, open + 1, 1);
                let close = list_close(doc, open + 1, 1);
                lemma_columns_unchanged_without_id(doc, close + 1);
                assert(doc.subrange(i, open + 1) + column_list(doc, open) + seq![')'] + doc.skip(
                    close + 1,
                ) =~= doc.skip(i));
            }
        } else {
            lemma_columns_unchanged_without_id(doc, i + 1);
            assert(seq![doc[i]] + doc.skip(i + 1) =~= doc.skip(i));
        }
    } else {
        assert(doc.skip(i) =~= Seq::<char>::empty());
    }
}

} // verus!
