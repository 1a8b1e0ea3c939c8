//! The value tuples of `VALUES` clauses, without their first value.

use crate::db::scan::{
    find_first_comma_outside_string, first_structural, is_space, keyword_at, lemma_depth_agrees,
    lemma_first_structural, lemma_state_after_agrees, lemma_structural_offset_is, match_kw_ci,
    parens_stay_open, spec_is_space, state_after, stays_open, structural_at,
    take_until_matching_paren,
};
use crate::db::Rewritten;
use crate::text::{append_range, strip_start_at, trim_start, CharClass};
use vstd::prelude::*;

verus! {

/// The keyword that value tuples follow, in small letters.
pub open spec fn values_keyword() -> Seq<char> {
    seq!['v', 'a', 'l', 'u', 'e', 's']
}

/// The index of the first character of `doc` at or after `from` that is not a
/// blank, or the length of `doc` where only blanks follow.
pub open spec fn skip_spaces(doc: Seq<char>, from: int) -> int
    decreases doc.len() - from,
{
    if from >= doc.len() {
        doc.len() as int
    } else if spec_is_space(doc[from]) {
        skip_spaces(doc, from + 1)
    } else {
        from
    }
}

/// Where the first value of the tuple that opens at `open` ends: the offset,
/// behind the `(`, of the first comma outside a literal.
pub open spec fn tuple_cut(doc: Seq<char>, open: int) -> int {
    first_structural(doc.skip(open + 1), ',')
}

/// What stands behind the first comma of the tuple that opens at `open`.
pub open spec fn behind_cut(doc: Seq<char>, open: int) -> Seq<char> {
    doc.skip(open + tuple_cut(doc, open) + 2)
}

/// Where the tuple that opens at `open` is closed: the offset, behind its
/// first comma, of the first `)` outside a literal.
pub open spec fn tuple_close(doc: Seq<char>, open: int) -> int {
    first_structural(behind_cut(doc, open), ')')
}

/// Whether a tuple that can be rewritten opens at `open`: a `(` stands there,
/// a comma outside a literal follows before the parentheses of the tuple are
/// closed, and a `)` outside a literal follows that comma.
pub open spec fn tuple_at(doc: Seq<char>, open: int) -> bool {
    &&& 0 <= open < doc.len()
    &&& doc[open] == '('
    &&& tuple_cut(doc, open) < doc.skip(open + 1).len()
    &&& stays_open(doc.skip(open + 1), tuple_cut(doc, open))
    &&& tuple_close(doc, open) < behind_cut(doc, open).len()
}

/// What is left inside a tuple when its first value goes: the text between
/// the first comma and the `)`, without leading white space.
pub open spec fn remaining_values(doc: Seq<char>, open: int) -> Seq<char> {
    trim_start(behind_cut(doc, open).take(tuple_close(doc, open)))
}

/// The tuple that opens at `open`, written without its first value.
pub open spec fn tuple_rewritten(doc: Seq<char>, open: int) -> Seq<char> {
    seq!['('] + remaining_values(doc, open) + seq![')']
}

/// Where the scan goes on behind the tuple that opens at `open`: behind its
/// closing parenthesis.
pub open spec fn tuple_end(doc: Seq<char>, open: int) -> int {
    open + tuple_cut(doc, open) + tuple_close(doc, open) + 3
}

/// The tuples that follow a rewritten one: their rewritten text, how many
/// they are, and where they end.
pub struct Chain {
    pub text: Seq<char>,
    pub count: nat,
    pub end: int,
}

/// The further tuples of a clause, read from `from`, which is where a tuple
/// has just ended.
///
/// A further tuple is there where, behind blanks, a comma stands, and behind
/// the comma and more blanks a tuple opens that can be rewritten. It is
/// written as the comma, the blanks behind the comma, and the tuple without
/// its first value; the blanks before the comma are dropped. Where no
/// further tuple is there the chain ends at `from`: nothing is written and
/// nothing is passed over.
pub open spec fn chain_from(doc: Seq<char>, from: int) -> Chain
    decreases doc.len() - from,
    via chain_from_decreases
{
    let comma = skip_spaces(doc, from);
    let open = skip_spaces(doc, comma + 1);
    if 0 <= from && comma < doc.len() && doc[comma] == ',' && tuple_at(doc, open) {
        let more = chain_from(doc, tuple_end(doc, open));
        Chain {
            text: seq![','] + doc.subrange(comma + 1, open) + tuple_rewritten(doc, open) + more.text,
            count: more.count + 1,
            end: more.end,
        }
    } else {
        Chain { text: Seq::empty(), count: 0, end: from }
    }
}

/// Blanks are passed over up to the first character that is none.
pub proof fn lemma_skip_spaces(doc: Seq<char>, from: int)
    requires
        0 <= from <= doc.len(),
    ensures
        from <= skip_spaces(doc, from) <= doc.len(),
        skip_spaces(doc, from) < doc.len() ==> !spec_is_space(doc[skip_spaces(doc, from)]),
        forall|j: int| from <= j < skip_spaces(doc, from) ==> spec_is_space(doc[j]),
    decreases doc.len() - from,
{
    if from < doc.len() && spec_is_space(doc[from]) {
        lemma_skip_spaces(doc, from + 1);
    }
}

/// A tuple that can be rewritten holds a comma and ends inside the document,
/// at least three characters behind where it opens.
pub proof fn lemma_tuple_end(doc: Seq<char>, open: int)
    requires
        tuple_at(doc, open),
    ensures
        open + 3 <= tuple_end(doc, open) <= doc.len(),
        doc[tuple_end(doc, open) - 1] == ')',
{
    lemma_first_structural(doc.skip(open + 1), ',');
    lemma_first_structural(behind_cut(doc, open), ')');
}

#[via_fn]
proof fn chain_from_decreases(doc: Seq<char>, from: int) {
    let comma = skip_spaces(doc, from);
    let open = skip_spaces(doc, comma + 1);
    if 0 <= from && comma < doc.len() && doc[comma] == ',' && tuple_at(doc, open) {
        lemma_skip_spaces(doc, from);
        lemma_skip_spaces(doc, comma + 1);
        lemma_tuple_end(doc, open);
    }
}

/// A chain ends at or behind the place where it was read from.
pub proof fn lemma_chain_end(doc: Seq<char>, from: int)
    requires
        0 <= from <= doc.len(),
    ensures
        from <= chain_from(doc, from).end <= doc.len(),
    decreases doc.len() - from,
{
    let comma = skip_spaces(doc, from);
    let open = skip_spaces(doc, comma + 1);
    if comma < doc.len() && doc[comma] == ',' && tuple_at(doc, open) {
        lemma_skip_spaces(doc, from);
        lemma_skip_spaces(doc, comma + 1);
        lemma_tuple_end(doc, open);
        lemma_chain_end(doc, tuple_end(doc, open));
    }
}

/// The rewriting of `doc` from `i` on.
///
/// Where the keyword stands at `i` and, behind blanks, a tuple opens that can
/// be rewritten, the keyword and the blanks are kept, the tuple and each
/// further tuple of its chain are written without their first value, and the
/// rewriting goes on where the chain ends; each tuple counts once. Where the
/// keyword stands at `i` and no such tuple follows, the rest of `doc`, from
/// the keyword on, is kept as it is. Any other character is kept.
pub open spec fn values_from(doc: Seq<char>, i: int) -> Rewritten
    decreases doc.len() - i,
    via values_from_decreases
{
    if i < 0 || i >= doc.len() {
        Rewritten { text: Seq::empty(), count: 0 }
    } else if keyword_at(doc, i, values_keyword()) {
        let open = skip_spaces(doc, i + 6);
        if tuple_at(doc, open) {
            let chain = chain_from(doc, tuple_end(doc, open));
            let rest = values_from(doc, chain.end);
            Rewritten {
                text: doc.subrange(i, open) + tuple_rewritten(doc, open) + chain.text
                    + rest.text,
                count: 1 + chain.count + rest.count,
            }
        } else {
            Rewritten { text: doc.skip(i), count: 0 }
        }
    } else {
        let rest = values_from(doc, i + 1);
        Rewritten { text: seq![doc[i]] + rest.text, count: rest.count }
    }
}

#[via_fn]
proof fn values_from_decreases(doc: Seq<char>, i: int) {
    if 0 <= i < doc.len() && keyword_at(doc, i, values_keyword()) {
        assert(values_keyword().len() == 6);
        lemma_skip_spaces(doc, i + 6);
        let open = skip_spaces(doc, i + 6);
        if tuple_at(doc, open) {
            lemma_tuple_end(doc, open);
            lemma_chain_end(doc, tuple_end(doc, open));
        }
    }
}

/// `doc` with the first value taken out of every value tuple.
pub open spec fn values_rewritten(doc: Seq<char>) -> Rewritten {
    values_from(doc, 0)
}

fn skip_spaces_from(doc: &[char], from: usize) -> (r: usize)
    requires
        from <= doc.len(),
    ensures
        r as int == skip_spaces(doc@, from as int),
        from <= r <= doc.len(),
{
    let mut i: usize = from;
    while i < doc.len() && is_space(doc[i])
        invariant
            from <= i <= doc.len(),
            skip_spaces(doc@, from as int) == skip_spaces(doc@, i as int),
        decreases doc.len() - i,
    {
        i += 1;
    }
    i
}

/// The tuple that opens at `open`, written without its first value, and where
/// it ends; nothing where no tuple that can be rewritten opens there.
fn rewrite_tuple(doc: &[char], open: usize) -> (r: Option<(Vec<char>, usize)>)
    requires
        open <= doc.len(),
    ensures
        match r {
            Some((text, end)) => {
                &&& tuple_at(doc@, open as int)
                &&& text@ == tuple_rewritten(doc@, open as int)
                &&& end as int == tuple_end(doc@, open as int)
            },
            None => !tuple_at(doc@, open as int),
        },
{
    let n = doc.len();
    if open >= n || doc[open] != '(' {
        return None;
    }
    let rest = &doc[open + 1..n];
    assert(rest@ =~= doc@.skip(open as int + 1));
    let cut = match find_first_comma_outside_string(rest) {
        Some(cut) => cut,
        None => {
            return None;
        },
    };
    if !parens_stay_open(rest, cut) {
        return None;
    }
    let behind = &doc[open + cut + 2..n];
    assert(behind@ =~= behind_cut(doc@, open as int));
    let (inside, consumed) = take_until_matching_paren(behind);
    if consumed >= behind.len() {
        return None;
    }
    let from = strip_start_at(inside.as_slice(), 0, inside.len(), CharClass::Whitespace);
    assert(inside@.subrange(0, inside@.len() as int) =~= inside@);
    let mut text: Vec<char> = Vec::new();
    text.push('(');
    append_range(&mut text, inside.as_slice(), from, inside.len());
    text.push(')');
    assert(text@ =~= tuple_rewritten(doc@, open as int));
    Some((text, open + cut + consumed + 3))
}

/// Writes the further tuples of a clause, read from `from`, to `out`, counts
/// them, and returns where they end.
fn rewrite_chain(doc: &[char], from: usize, out: &mut Vec<char>, changed_count: &mut usize) -> (end:
    usize)
    requires
        from <= doc.len(),
        *old(changed_count) + chain_from(doc@, from as int).count <= usize::MAX,
    ensures
        final(out)@ == old(out)@ + chain_from(doc@, from as int).text,
        *final(changed_count) == *old(changed_count) + chain_from(doc@, from as int).count,
        end as int == chain_from(doc@, from as int).end,
        from <= end <= doc.len(),
{
    let n = doc.len();
    let mut at: usize = from;
    loop
        invariant_except_break
            at <= n,
            n == doc.len(),
            old(out)@ + chain_from(doc@, from as int).text == out@ + chain_from(
                doc@,
                at as int,
            ).text,
            *old(changed_count) + chain_from(doc@, from as int).count == *changed_count
                + chain_from(doc@, at as int).count,
            chain_from(doc@, from as int).end == chain_from(doc@, at as int).end,
            *old(changed_count) + chain_from(doc@, from as int).count <= usize::MAX,
            from <= at,
        ensures
            out@ == old(out)@ + chain_from(doc@, from as int).text,
            *changed_count == *old(changed_count) + chain_from(doc@, from as int).count,
            at as int == chain_from(doc@, from as int).end,
            from <= at <= n,
        decreases n - at,
    {
        let ghost before = out@;
        let ghost here = chain_from(doc@, at as int);
        proof {
            lemma_skip_spaces(doc@, at as int);
        }
        let comma = skip_spaces_from(doc, at);
        if comma >= n || doc[comma] != ',' {
            assert(before + here.text =~= before);
            break ;
        }
        let open = skip_spaces_from(doc, comma + 1);
        match rewrite_tuple(doc, open) {
            None => {
                assert(before + here.text =~= before);
                break ;
            },
            Some((text, end)) => {
                proof {
                    lemma_tuple_end(doc@, open as int);
                }
                out.push(',');
                append_range(out, doc, comma + 1, open);
                let mut text = text;
                let ghost tuple_text = text@;
                out.append(&mut text);
                *changed_count += 1;
                let ghost more = chain_from(doc@, end as int);
                assert(out@ =~= before + (seq![','] + doc@.subrange(
                    comma as int + 1,
                    open as int,
                ) + tuple_text));
                assert(out@ + more.text =~= before + here.text);
                at = end;
            },
        }
    }
    at
}

/// Takes the first value out of every value tuple of `input`.
///
/// Each place where `values` stands, in any case, opens a clause. The keyword
/// and the blanks behind it are kept. The tuple that follows loses what stands
/// before its first comma outside a literal, with that comma, and the white
/// space behind it; what is left runs to the first `)` outside a literal. So
/// does each further tuple that follows behind a comma. `changed_count` is
/// raised by one for each tuple that is rewritten.
///
/// A tuple can be rewritten where a comma outside a literal follows its `(`
/// before its parentheses are closed, and a `)` outside a literal follows
/// that comma. Where none that can follows a keyword, the rest of `input` is
/// left as it is. Where none that can follows a comma behind a tuple, the
/// clause ends there, and what follows it is read as any other text.
pub fn remove_first_value_from_values_tuples(input: &[char], changed_count: &mut usize) -> (out:
    Vec<char>)
    requires
        *old(changed_count) + values_rewritten(input@).count <= usize::MAX,
    ensures
        out@ == values_rewritten(input@).text,
        *final(changed_count) == *old(changed_count) + values_rewritten(input@).count,
{
    let n = input.len();
    let keyword: [char; 6] = ['v', 'a', 'l', 'u', 'e', 's'];
    assert(keyword@ =~= values_keyword());
    let mut out: Vec<char> = Vec::new();
    let mut i: usize = 0;
    while i < n
        invariant
            i <= n,
            n == input.len(),
            keyword@ == values_keyword(),
            values_rewritten(input@).text == out@ + values_from(input@, i as int).text,
            *old(changed_count) + values_rewritten(input@).count == *changed_count + values_from(
                input@,
                i as int,
            ).count,
            *old(changed_count) + values_rewritten(input@).count <= usize::MAX,
        decreases n - i,
    {
        let ghost before = out@;
        let ghost here = values_from(input@, i as int);
        if match_kw_ci(input, i, keyword.as_slice()) {
            let open = skip_spaces_from(input, i + 6);
            match rewrite_tuple(input, open) {
                Some((text, end)) => {
                    proof {
                        lemma_tuple_end(input@, open as int);
                        lemma_chain_end(input@, end as int);
                    }
                    append_range(&mut out, input, i, open);
                    let mut text = text;
                    let ghost tuple_text = text@;
                    out.append(&mut text);
                    *changed_count += 1;
                    let ghost chain = chain_from(input@, end as int);
                    let ghost rest = values_from(input@, chain.end);
                    let resume = rewrite_chain(input, end, &mut out, changed_count);
                    assert(out@ =~= before + (input@.subrange(i as int, open as int) + tuple_text
                        + chain.text));
                    assert(here.text =~= input@.subrange(i as int, open as int) + tuple_text
                        + chain.text + rest.text);
                    i = resume;
                },
                None => {
                    append_range(&mut out, input, i, n);
                    assert(input@.subrange(i as int, n as int) =~= input@.skip(i as int));
                    i = n;
                },
            }
        } else {
            out.push(input[i]);
            assert(out@ =~= before + seq![input@[i as int]]);
            i += 1;
        }
    }
    assert(out@ =~= out@ + Seq::<char>::empty());
    out
}

/// A chain takes up at least three characters for each tuple that it counts.
pub proof fn lemma_chain_count_bound(doc: Seq<char>, from: int)
    requires
        0 <= from <= doc.len(),
    ensures
        3 * chain_from(doc, from).count <= chain_from(doc, from).end - from,
    decreases doc.len() - from,
{
    let comma = skip_spaces(doc, from);
    let open = skip_spaces(doc, comma + 1);
    if comma < doc.len() && doc[comma] == ',' && tuple_at(doc, open) {
        lemma_skip_spaces(doc, from);
        lemma_skip_spaces(doc, comma + 1);
        lemma_tuple_end(doc, open);
        lemma_chain_count_bound(doc, tuple_end(doc, open));
    }
}

/// A document holds at least three characters for each tuple that is counted.
pub proof fn lemma_values_count_bound(doc: Seq<char>, i: int)
    requires
        0 <= i <= doc.len(),
    ensures
        3 * values_from(doc, i).count <= doc.len() - i,
    decreases doc.len() - i,
{
    if i < doc.len() {
        if keyword_at(doc, i, values_keyword()) {
            assert(values_keyword().len() == 6);
            lemma_skip_spaces(doc, i + 6);
            let open = skip_spaces(doc, i + 6);
            if tuple_at(doc, open) {
                lemma_tuple_end(doc, open);
                let end = tuple_end(doc, open);
                lemma_chain_end(doc, end);
                lemma_chain_count_bound(doc, end);
                lemma_values_count_bound(doc, chain_from(doc, end).end);
            }
        } else {
            lemma_values_count_bound(doc, i + 1);
        }
    }
}

/// A tuple loses exactly its first value. Where `doc` holds, at `open`, a
/// `(`, then `first`, a comma, `rest` and a `)`, the tuple can be rewritten
/// and is written as `rest` without its leading white space, between
/// parentheses, whatever `first` and `rest` otherwise hold, provided that
/// - in `first` no comma lies outside a literal, no literal is open at its
///   end, and every `)` outside a literal closes a `(` of `first`;
/// - in `rest` no `)` lies outside a literal, and no literal is open at its
///   end.
pub proof fn lemma_tuple_loses_first_value(
    doc: Seq<char>,
    open: int,
    first: Seq<char>,
    rest: Seq<char>,
)
    requires
        0 <= open,
        open + first.len() + rest.len() + 3 <= doc.len(),
        doc.subrange(open, open + first.len() + rest.len() + 3) == seq!['('] + first + seq![',']
            + rest + seq![')'],
        forall|j: int| 0 <= j < first.len() ==> !structural_at(first, j, ','),
        !state_after(first, first.len() as int).quoted(),
        stays_open(first, first.len() as int),
        forall|j: int| 0 <= j < rest.len() ==> !structural_at(rest, j, ')'),
        !state_after(rest, rest.len() as int).quoted(),
    ensures
        tuple_at(doc, open),
        remaining_values(doc, open) == trim_start(rest),
        tuple_rewritten(doc, open) == seq!['('] + trim_start(rest) + seq![')'],
        tuple_end(doc, open) == open + first.len() + rest.len() + 3,
{
    let whole = seq!['('] + first + seq![','] + rest + seq![')'];
    let cut = first.len() as int;
    let close = rest.len() as int;
    assert forall|j: int| 0 <= j < whole.len() implies doc[open + j] == whole[j] by {
        assert(doc.subrange(open, open + whole.len())[j] == doc[open + j]);
    }
    let behind_open = doc.skip(open + 1);
    assert forall|j: int| 0 <= j < cut implies behind_open[j] == first[j] by {
        assert(whole[j + 1] == first[j]);
    }
    assert(behind_open[cut] == ',') by {
        assert(whole[cut + 1] == ',');
    }
    assert forall|j: int| 0 <= j < cut implies !structural_at(behind_open, j, ',') by {
        lemma_state_after_agrees(behind_open, first, j);
        assert(!structural_at(first, j, ','));
    }
    lemma_state_after_agrees(behind_open, first, cut);
    lemma_structural_offset_is(behind_open, ',', 0, cut);
    lemma_depth_agrees(behind_open, first, cut);
    let behind = behind_cut(doc, open);
    assert forall|j: int| 0 <= j < close implies behind[j] == rest[j] by {
        assert(whole[j + cut + 2] == rest[j]);
    }
    assert(behind[close] == ')') by {
        assert(whole[close + cut + 2] == ')');
    }
    assert forall|j: int| 0 <= j < close implies !structural_at(behind, j, ')') by {
        lemma_state_after_agrees(behind, rest, j);
        assert(!structural_at(rest, j, ')'));
    }
    lemma_state_after_agrees(behind, rest, close);
    lemma_structural_offset_is(behind, ')', 0, close);
    assert(behind.take(close) =~= rest);
    assert(doc[open] == '(') by {
        assert(whole[0] == '(');
    }
    assert(tuple_cut(doc, open) == cut);
    assert(stays_open(behind_open, cut));
    assert(tuple_close(doc, open) == close);
}

/// Whether `opens` are the places where the next tuples of a chain open, the
/// chain being read from `from`: before each of them stand blanks, a comma and
/// blanks, and each can be rewritten.
pub open spec fn chain_opens(doc: Seq<char>, from: int, opens: Seq<int>) -> bool
    decreases opens.len(),
{
    if opens.len() == 0 {
        true
    } else {
        let comma = skip_spaces(doc, from);
        &&& 0 <= from
        &&& comma < doc.len()
        &&& doc[comma] == ','
        &&& opens[0] == skip_spaces(doc, comma + 1)
        &&& tuple_at(doc, opens[0])
        &&& chain_opens(doc, tuple_end(doc, opens[0]), opens.drop_first())
    }
}

/// What is written for the tuples that open at `opens`: for each a comma, the
/// blanks that stood behind the comma, and the tuple without its first value.
pub open spec fn chain_text(doc: Seq<char>, from: int, opens: Seq<int>) -> Seq<char>
    decreases opens.len(),
{
    if opens.len() == 0 {
        Seq::empty()
    } else {
        let comma = skip_spaces(doc, from);
        seq![','] + doc.subrange(comma + 1, opens[0]) + tuple_rewritten(doc, opens[0])
            + chain_text(doc, tuple_end(doc, opens[0]), opens.drop_first())
    }
}

/// Where the last of the tuples that open at `opens` ends; `from` where there
/// is none.
pub open spec fn chain_end(doc: Seq<char>, from: int, opens: Seq<int>) -> int {
    if opens.len() == 0 {
        from
    } else {
        tuple_end(doc, opens.last())
    }
}

/// Every tuple of a chain is rewritten, not only the first: where `opens` are
/// the next tuples of the chain read from `from`, each of them is written
/// without its first value and counted, and the chain goes on behind the last
/// of them.
pub proof fn lemma_chain_rewrites_every_tuple(doc: Seq<char>, from: int, opens: Seq<int>)
    requires
        0 <= from <= doc.len(),
        chain_opens(doc, from, opens),
    ensures
        0 <= chain_end(doc, from, opens) <= doc.len(),
        chain_from(doc, from).text == chain_text(doc, from, opens) + chain_from(
            doc,
            chain_end(doc, from, opens),
        ).text,
        chain_from(doc, from).count == opens.len() + chain_from(
            doc,
            chain_end(doc, from, opens),
        ).count,
        chain_from(doc, from).end == chain_from(doc, chain_end(doc, from, opens)).end,
    decreases opens.len(),
{
    if opens.len() == 0 {
        assert(chain_from(doc, from).text =~= Seq::<char>::empty() + chain_from(doc, from).text);
    } else {
        let comma = skip_spaces(doc, from);
        lemma_skip_spaces(doc, from);
        lemma_skip_spaces(doc, comma + 1);
        lemma_tuple_end(doc, opens[0]);
        let next = tuple_end(doc, opens[0]);
        let tail = opens.drop_first();
        lemma_chain_rewrites_every_tuple(doc, next, tail);
        if tail.len() > 0 {
            assert(tail.last() == opens.last());
        }
        assert(chain_end(doc, next, tail) == chain_end(doc, from, opens));
        let beyond = chain_from(doc, chain_end(doc, from, opens)).text;
        let head = seq![','] + doc.subrange(comma + 1, opens[0]) + tuple_rewritten(doc, opens[0]);
        assert(head + (chain_text(doc, next, tail) + beyond) =~= chain_text(doc, from, opens)
            + beyond);
    }
}

/// Every tuple of a clause loses its first value, whatever stood before the
/// clause. Where the keyword stands at `i`, the first of `opens` is where the
/// blanks behind it end, and the others chain on, the clause is written as the
/// keyword and its blanks, then each tuple without its first value, and each
/// tuple is counted; the rewriting goes on behind the chain.
pub proof fn lemma_clause_rewrites_every_tuple(doc: Seq<char>, i: int, opens: Seq<int>)
    requires
        0 <= i < doc.len(),
        keyword_at(doc, i, values_keyword()),
        opens.len() >= 1,
        opens[0] == skip_spaces(doc, i + 6),
        tuple_at(doc, opens[0]),
        chain_opens(doc, tuple_end(doc, opens[0]), opens.drop_first()),
    ensures
        ({
            let first_end = tuple_end(doc, opens[0]);
            let last_end = tuple_end(doc, opens.last());
            let beyond = chain_from(doc, last_end);
            let rest = values_from(doc, beyond.end);
            &&& values_from(doc, i).text == doc.subrange(i, opens[0]) + tuple_rewritten(doc, opens[0]) + chain_text(doc, first_end, opens.drop_first()) + beyond.text + rest.text
            &&& values_from(doc, i).count == opens.len() + beyond.count + rest.count
        }),
{
    let first_end = tuple_end(doc, opens[0]);
    let tail = opens.drop_first();
    lemma_tuple_end(doc, opens[0]);
    lemma_chain_rewrites_every_tuple(doc, first_end, tail);
    if tail.len() > 0 {
        assert(tail.last() == opens.last());
    }
    let last_end = tuple_end(doc, opens.last());
    assert(chain_end(doc, first_end, tail) == last_end);
    let beyond = chain_from(doc, last_end);
    let rest = values_from(doc, beyond.end);
    let head = doc.subrange(i, opens[0]) + tuple_rewritten(doc, opens[0]);
    assert(head + (chain_text(doc, first_end, tail) + beyond.text) + rest.text =~= head
        + chain_text(doc, first_end, tail) + beyond.text + rest.text);
}

/// Text before the first keyword is kept as it is: where the keyword stands
/// nowhere before `i`, the document comes out as its first `i` characters and
/// then the rewriting from `i` on. So a document without the keyword comes
/// out unchanged, with nothing counted.
pub proof fn lemma_values_before_first_keyword(doc: Seq<char>, i: int)
    requires
        0 <= i <= doc.len(),
        forall|j: int| 0 <= j < i ==> !keyword_at(doc, j, values_keyword()),
    ensures
        values_rewritten(doc).text == doc.take(i) + values_from(doc, i).text,
        values_rewritten(doc).count == values_from(doc, i).count,
    decreases i,
{
    if i == 0 {
        assert(doc.take(0) + values_from(doc, 0).text =~= values_from(doc, 0).text);
    } else {
        lemma_values_before_first_keyword(doc, i - 1);
        assert(doc.take(i - 1) + (seq![doc[i - 1]] + values_from(doc, i).text) =~= doc.take(i)
            + values_from(doc, i).text);
    }
}

/// Whether the pass, reading `doc` from `from` on, comes to read at `i`: it
/// goes on one character behind each character that opens no clause, and
/// behind the chain of each clause that it rewrites; behind a keyword that no
/// tuple follows that can be rewritten it reads no more.
pub open spec fn scan_reaches(doc: Seq<char>, from: int, i: int) -> bool
    decreases doc.len() - from,
    via scan_reaches_decreases
{
    if from == i {
        true
    } else if from < 0 || from >= doc.len() || from > i {
        false
    } else if keyword_at(doc, from, values_keyword()) {
        let open = skip_spaces(doc, from + 6);
        tuple_at(doc, open) && scan_reaches(doc, chain_from(doc, tuple_end(doc, open)).end, i)
    } else {
        scan_reaches(doc, from + 1, i)
    }
}

#[via_fn]
proof fn scan_reaches_decreases(doc: Seq<char>, from: int, i: int) {
    if 0 <= from < doc.len() && keyword_at(doc, from, values_keyword()) {
        assert(values_keyword().len() == 6);
        lemma_skip_spaces(doc, from + 6);
        let open = skip_spaces(doc, from + 6);
        if tuple_at(doc, open) {
            lemma_tuple_end(doc, open);
            lemma_chain_end(doc, tuple_end(doc, open));
        }
    }
}

/// What the pass writes from a place that it comes to read at is the end of
/// what it writes in all, and what it counts from there on is part of what it
/// counts in all. So a clause that the pass comes to is rewritten as
/// `lemma_clause_rewrites_every_tuple` says, wherever in the document it
/// stands.
pub proof fn lemma_reached_text_is_written(doc: Seq<char>, from: int, i: int)
    requires
        0 <= from <= doc.len(),
        scan_reaches(doc, from, i),
    ensures
        exists|head: Seq<char>|
            values_from(doc, from).text == head + values_from(doc, i).text,
        values_from(doc, from).count >= values_from(doc, i).count,
    decreases doc.len() - from,
{
    if from == i {
        assert(values_from(doc, from).text == Seq::<char>::empty() + values_from(doc, i).text);
    } else if keyword_at(doc, from, values_keyword()) {
        assert(values_keyword().len() == 6);
        lemma_skip_spaces(doc, from + 6);
        let open = skip_spaces(doc, from + 6);
        lemma_tuple_end(doc, open);
        let chain = chain_from(doc, tuple_end(doc, open));
        lemma_chain_end(doc, tuple_end(doc, open));
        lemma_reached_text_is_written(doc, chain.end, i);
        let tail = choose|tail: Seq<char>|
            values_from(doc, chain.end).text == tail + values_from(doc, i).text;
        let head = doc.subrange(from, open) + tuple_rewritten(doc, open) + chain.text + tail;
        assert(values_from(doc, from).text =~= head + values_from(doc, i).text);
    } else {
        lemma_reached_text_is_written(doc, from + 1, i);
        let tail = choose|tail: Seq<char>|
            values_from(doc, from + 1).text == tail + values_from(doc, i).text;
        let head = seq![doc[from]] + tail;
        assert(values_from(doc, from).text =~= head + values_from(doc, i).text);
    }
}

} // verus!
