//! The table that lists the repositories.

use crate::repo::parse::{decimal_value, digit_value, is_digit};
use crate::repo::repo::{RepoInfo, RepoInfoView};
use crate::text::{append_range, chars_of, string_of};
use vstd::prelude::*;
use vstd::utf8::encode_utf8;

verus! {

/// `n` times `c`.
pub open spec fn repeated(c: char, n: nat) -> Seq<char> {
    Seq::new(n, |i: int| c)
}

/// `text` at the left of a field of `width` characters: blanks fill what is
/// left of the field, and a text that is longer than the field stays whole.
pub open spec fn left_aligned(text: Seq<char>, width: nat) -> Seq<char> {
    if text.len() < width {
        text + repeated(' ', (width - text.len()) as nat)
    } else {
        text
    }
}

/// `text` at the right of a field of `width` characters.
pub open spec fn right_aligned(text: Seq<char>, width: nat) -> Seq<char> {
    if text.len() < width {
        repeated(' ', (width - text.len()) as nat) + text
    } else {
        text
    }
}

/// The character that stands for a digit.
pub open spec fn digit_char(d: nat) -> char {
    (d + 48) as char
}

/// A number in decimal writing, without leading zeros.
pub open spec fn decimal_digits(n: nat) -> Seq<char>
    decreases n,
{
    if n < 10 {
        seq![digit_char(n)]
    } else {
        decimal_digits(n / 10).push(digit_char(n % 10))
    }
}

/// What is written reads as what was meant: the decimal writing of a number
/// holds digits only, and their value is the number.
pub proof fn lemma_decimal_digits_value(n: nat)
    ensures
        decimal_digits(n).len() > 0,
        forall|j: int| 0 <= j < decimal_digits(n).len() ==> is_digit(decimal_digits(n)[j]),
        decimal_value(decimal_digits(n)) == n,
    decreases n,
{
    if n < 10 {
        assert(decimal_digits(n).drop_last() =~= Seq::<char>::empty());
        assert(decimal_value(Seq::<char>::empty()) == 0);
        assert(digit_value(digit_char(n)) == n);
    } else {
        lemma_decimal_digits_value(n / 10);
        let head = decimal_digits(n / 10);
        let all = head.push(digit_char(n % 10));
        assert(all.drop_last() =~= head);
        assert(all.last() == digit_char(n % 10));
        assert(digit_value(digit_char(n % 10)) == n % 10);
        assert(decimal_value(all) == decimal_value(head) * 10 + (n % 10));
    }
}

/// A count as the table shows it: the number, or a dash where it is not
/// known.
pub open spec fn count_text(count: Option<u32>) -> Seq<char> {
    match count {
        Some(n) => decimal_digits(n as nat),
        None => seq!['-'],
    }
}

/// The number of bytes that a text takes.
pub open spec fn byte_len(text: Seq<char>) -> nat {
    encode_utf8(text).len()
}

/// The widths of the three columns that hold texts.
pub struct Widths {
    pub name: nat,
    pub branch: nat,
    pub upstream: nat,
}

/// The greater of two numbers.
pub open spec fn larger(a: nat, b: nat) -> nat {
    if a < b {
        b
    } else {
        a
    }
}

/// The widths for the first `n` repositories: each column is as wide as its
/// heading, or as the longest text in it where that is wider. The length of
/// a text is taken in bytes.
pub open spec fn widths_of(infos: Seq<RepoInfoView>, n: int) -> Widths
    decreases n,
{
    if n <= 0 {
        Widths { name: 4, branch: 6, upstream: 8 }
    } else {
        let before = widths_of(infos, n - 1);
        Widths {
            name: larger(before.name, byte_len(infos[n - 1].name)),
            branch: larger(before.branch, byte_len(infos[n - 1].branch)),
            upstream: larger(before.upstream, byte_len(infos[n - 1].upstream)),
        }
    }
}

/// A line of the table: the three texts at the left of their columns, then
/// the three others at the right of columns of six, six and seven
/// characters, with a blank between each two columns.
pub open spec fn table_line(
    widths: Widths,
    name: Seq<char>,
    branch: Seq<char>,
    upstream: Seq<char>,
    ahead: Seq<char>,
    behind: Seq<char>,
    changes: Seq<char>,
) -> Seq<char> {
    left_aligned(name, widths.name) + seq![' '] + left_aligned(branch, widths.branch) + seq![' ']
        + left_aligned(upstream, widths.upstream) + seq![' '] + right_aligned(ahead, 6) + seq![' ']
        + right_aligned(behind, 6) + seq![' '] + right_aligned(changes, 7)
}

/// The line of headings.
pub open spec fn heading_line(widths: Widths) -> Seq<char> {
    table_line(widths, "NAME"@, "BRANCH"@, "UPSTREAM"@, "AHEAD"@, "BEHIND"@, "CHANGES"@)
}

/// The line under the headings: dashes, as wide as the table where no text
/// is longer than its column.
pub open spec fn rule_line(widths: Widths) -> Seq<char> {
    repeated('-', widths.name + widths.branch + widths.upstream + 26)
}

/// The line for one repository.
pub open spec fn repo_line(widths: Widths, info: RepoInfoView) -> Seq<char> {
    table_line(
        widths,
        info.name,
        info.branch,
        info.upstream,
        count_text(info.ahead),
        count_text(info.behind),
        decimal_digits(info.changes),
    )
}

fn push_repeated(out: &mut Vec<char>, c: char, n: usize)
    ensures
        final(out)@ == old(out)@ + repeated(c, n as nat),
{
    let mut k: usize = 0;
    assert(out@ =~= old(out)@ + repeated(c, 0));
    while k < n
        invariant
            k <= n,
            out@ == old(out)@ + repeated(c, k as nat),
        decreases n - k,
    {
        out.push(c);
        assert(out@ =~= old(out)@ + repeated(c, (k + 1) as nat));
        k += 1;
    }
}

fn push_left_aligned(out: &mut Vec<char>, text: &[char], width: usize)
    ensures
        final(out)@ == old(out)@ + left_aligned(text@, width as nat),
{
    append_range(out, text, 0, text.len());
    assert(text@.subrange(0, text@.len() as int) =~= text@);
    if text.len() < width {
        push_repeated(out, ' ', width - text.len());
        assert(out@ =~= old(out)@ + (text@ + repeated(' ', (width - text.len()) as nat)));
    }
}

fn push_right_aligned(out: &mut Vec<char>, text: &[char], width: usize)
    ensures
        final(out)@ == old(out)@ + right_aligned(text@, width as nat),
{
    if text.len() < width {
        push_repeated(out, ' ', width - text.len());
    }
    append_range(out, text, 0, text.len());
    assert(text@.subrange(0, text@.len() as int) =~= text@);
    assert(out@ =~= old(out)@ + right_aligned(text@, width as nat));
}

/// The decimal writing of `n`.
pub fn decimal_text(n: u64) -> (text: Vec<char>)
    ensures
        text@ == decimal_digits(n as nat),
    decreases n,
{
    if n < 10 {
        let digit: u8 = 48u8 + (n as u8);
        let mut text: Vec<char> = Vec::new();
        text.push(digit as char);
        assert(text@ =~= decimal_digits(n as nat));
        text
    } else {
        let mut text = decimal_text(n / 10);
        let digit: u8 = 48u8 + ((n % 10) as u8);
        text.push(digit as char);
        text
    }
}

fn count_chars(count: Option<u32>) -> (text: Vec<char>)
    ensures
        text@ == count_text(count),
{
    match count {
        Some(n) => decimal_text(n as u64),
        None => {
            let mut text: Vec<char> = Vec::new();
            text.push('-');
            assert(text@ =~= seq!['-']);
            text
        },
    }
}

/// The widths as the machine holds them.
struct ColumnWidths {
    name: usize,
    branch: usize,
    upstream: usize,
}

impl ColumnWidths {
    spec fn view(&self) -> Widths {
        Widths {
            name: self.name as nat,
            branch: self.branch as nat,
            upstream: self.upstream as nat,
        }
    }
}

fn line(
    widths: &ColumnWidths,
    name: &[char],
    branch: &[char],
    upstream: &[char],
    ahead: &[char],
    behind: &[char],
    changes: &[char],
) -> (text: String)
    ensures
        text@ == table_line(widths@, name@, branch@, upstream@, ahead@, behind@, changes@),
{
    let mut out: Vec<char> = Vec::new();
    push_left_aligned(&mut out, name, widths.name);
    out.push(' ');
    push_left_aligned(&mut out, branch, widths.branch);
    out.push(' ');
    push_left_aligned(&mut out, upstream, widths.upstream);
    out.push(' ');
    push_right_aligned(&mut out, ahead, 6);
    out.push(' ');
    push_right_aligned(&mut out, behind, 6);
    out.push(' ');
    push_right_aligned(&mut out, changes, 7);
    assert(out@ =~= table_line(widths@, name@, branch@, upstream@, ahead@, behind@, changes@));
    string_of(out.as_slice())
}

fn greater(a: usize, b: usize) -> (m: usize)
    ensures
        m as nat == larger(a as nat, b as nat),
{
    if a < b {
        b
    } else {
        a
    }
}

/// What `infos` hold.
pub open spec fn info_views(infos: Seq<RepoInfo>) -> Seq<RepoInfoView> {
    infos.map_values(|info: RepoInfo| info@)
}

/// The lines of the table for `infos`: the headings, the rule, and one line
/// for each repository in their order.
pub open spec fn table_of(infos: Seq<RepoInfoView>) -> Seq<Seq<char>> {
    let widths = widths_of(infos, infos.len() as int);
    seq![heading_line(widths), rule_line(widths)] + infos.map_values(
        |info: RepoInfoView| repo_line(widths, info),
    )
}

/// The texts that `lines` hold.
pub open spec fn table_texts(lines: Seq<String>) -> Seq<Seq<char>> {
    lines.map_values(|line: String| line@)
}

/// The table that lists `infos`, line by line.
pub fn table_lines(infos: &[RepoInfo]) -> (lines: Vec<String>)
    ensures
        table_texts(lines@) == table_of(info_views(infos@)),
{
    let ghost views = info_views(infos@);
    let mut widths = ColumnWidths { name: 4, branch: 6, upstream: 8 };
    let mut k: usize = 0;
    while k < infos.len()
        invariant
            k <= infos@.len(),
            views == info_views(infos@),
            widths@ == widths_of(views, k as int),
        decreases infos.len() - k,
    {
        assert(views[k as int] == infos@[k as int]@);
        widths.name = greater(widths.name, infos[k].name.as_str().as_bytes().len());
        widths.branch = greater(widths.branch, infos[k].branch.as_str().as_bytes().len());
        widths.upstream = greater(widths.upstream, infos[k].upstream.as_str().as_bytes().len());
        k += 1;
    }
    let ghost all = widths@;
    let mut lines: Vec<String> = Vec::new();
    let name = chars_of("NAME");
    let branch = chars_of("BRANCH");
    let upstream = chars_of("UPSTREAM");
    let ahead = chars_of("AHEAD");
    let behind = chars_of("BEHIND");
    let changes = chars_of("CHANGES");
    lines.push(
        line(
            &widths,
            name.as_slice(),
            branch.as_slice(),
            upstream.as_slice(),
            ahead.as_slice(),
            behind.as_slice(),
            changes.as_slice(),
        ),
    );
    let mut rule: Vec<char> = Vec::new();
    push_repeated(&mut rule, '-', widths.name);
    push_repeated(&mut rule, '-', widths.branch);
    push_repeated(&mut rule, '-', widths.upstream);
    push_repeated(&mut rule, '-', 26);
    assert(rule@ =~= rule_line(all));
    lines.push(string_of(rule.as_slice()));
    let mut k: usize = 0;
    while k < infos.len()
        invariant
            k <= infos@.len(),
            views == info_views(infos@),
            widths@ == all,
            lines@.len() == k + 2,
            lines@[0]@ == heading_line(all),
            lines@[1]@ == rule_line(all),
            forall|j: int| 0 <= j < k ==> (#[trigger] lines@[j + 2])@ == repo_line(all, views[j]),
        decreases infos.len() - k,
    {
        let info = &infos[k];
        assert(views[k as int] == info@);
        let name = chars_of(info.name.as_str());
        let branch = chars_of(info.branch.as_str());
        let upstream = chars_of(info.upstream.as_str());
        let ahead = count_chars(info.ahead);
        let behind = count_chars(info.behind);
        let changes = decimal_text(info.changes as u64);
        let text = line(
            &widths,
            name.as_slice(),
            branch.as_slice(),
            upstream.as_slice(),
            ahead.as_slice(),
            behind.as_slice(),
            changes.as_slice(),
        );
        lines.push(text);
        k += 1;
    }
    assert(table_texts(lines@) =~= table_of(views)) by {
        assert(table_of(views).len() == views.len() + 2);
        assert forall|j: int| 0 <= j < lines@.len() implies table_texts(lines@)[j] == table_of(
            views,
        )[j] by {
            if j >= 2 {
                assert(lines@[(j - 2) + 2] == lines@[j]);
            }
        }
    }
    lines
}

} // verus!
