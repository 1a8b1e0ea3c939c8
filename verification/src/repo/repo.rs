//! The state of a repository, put together from what `git` printed.

use crate::repo::order::{key_texts, sort_by_keys, stable_order};
use crate::repo::parse::{
    count_lines, find_word, first_word, line_count, parse_u32, parsed_u32, second_word,
};
use crate::text::{chars_equal, chars_of};
use vstd::prelude::*;
use vstd::string::StringExecFns;

verus! {

/// What `git` printed for one repository. Each field but the first two holds
/// the output of one command, without the white space around it, or nothing
/// where the command was not run or failed.
#[derive(Debug)]
pub struct RepoProbe {
    /// The name of the repository's directory.
    pub name: String,
    /// The path of the repository.
    pub path: String,
    /// The name of the branch that is checked out; `HEAD` where none is.
    pub head: Option<String>,
    /// The short hash of the commit that is checked out; asked for where
    /// `head` is `HEAD`.
    pub short_head: Option<String>,
    /// The name of the branch that the checked-out branch follows.
    pub upstream: Option<String>,
    /// Two numbers: the commits that only the branch has, and those that only
    /// its upstream has.
    pub counts: Option<String>,
    /// One line for each file that differs from the last commit.
    pub status: Option<String>,
}

/// The state of a repository.
#[derive(Debug)]
pub struct RepoInfo {
    pub name: String,
    pub path: String,
    pub branch: String,
    pub upstream: String,
    pub ahead: Option<u32>,
    pub behind: Option<u32>,
    pub changes: usize,
}

/// What a probe holds, as texts.
pub struct RepoProbeView {
    pub name: Seq<char>,
    pub path: Seq<char>,
    pub head: Option<Seq<char>>,
    pub short_head: Option<Seq<char>>,
    pub upstream: Option<Seq<char>>,
    pub counts: Option<Seq<char>>,
    pub status: Option<Seq<char>>,
}

/// What a state holds, as texts and numbers.
pub struct RepoInfoView {
    pub name: Seq<char>,
    pub path: Seq<char>,
    pub branch: Seq<char>,
    pub upstream: Seq<char>,
    pub ahead: Option<u32>,
    pub behind: Option<u32>,
    pub changes: nat,
}

/// The text that an output holds, if there is one.
pub open spec fn text_of(output: Option<String>) -> Option<Seq<char>> {
    match output {
        Some(text) => Some(text@),
        None => None,
    }
}

impl View for RepoProbe {
    type V = RepoProbeView;

    open spec fn view(&self) -> RepoProbeView {
        RepoProbeView {
            name: self.name@,
            path: self.path@,
            head: text_of(self.head),
            short_head: text_of(self.short_head),
            upstream: text_of(self.upstream),
            counts: text_of(self.counts),
            status: text_of(self.status),
        }
    }
}

impl View for RepoInfo {
    type V = RepoInfoView;

    open spec fn view(&self) -> RepoInfoView {
        RepoInfoView {
            name: self.name@,
            path: self.path@,
            branch: self.branch@,
            upstream: self.upstream@,
            ahead: self.ahead,
            behind: self.behind,
            changes: self.changes as nat,
        }
    }
}

/// An output, or a dash where there is none.
pub open spec fn or_dash(output: Option<Seq<char>>) -> Seq<char> {
    match output {
        Some(text) => text,
        None => "-"@,
    }
}

/// The branch of a repository: the name of the branch that is checked out,
/// or, where that reads `HEAD` because no branch is, the short hash of the
/// commit; a dash for what is not known.
pub open spec fn branch_of(probe: RepoProbeView) -> Seq<char> {
    if or_dash(probe.head) == "HEAD"@ {
        or_dash(probe.short_head)
    } else {
        or_dash(probe.head)
    }
}

/// The two counts as they are read where the repository has an upstream:
/// `0` and `0` where the command gave nothing.
pub open spec fn counts_of(probe: RepoProbeView) -> Seq<char> {
    match probe.counts {
        Some(text) => text,
        None => "0\t0"@,
    }
}

/// A word of the counts as a number; nothing where the word is missing or is
/// no number.
pub open spec fn count_in(word: Option<Seq<char>>) -> Option<u32> {
    match word {
        Some(text) => parsed_u32(text),
        None => None,
    }
}

/// The state that a probe shows.
///
/// The upstream is the output or a dash. Only where there is an upstream are
/// the counts read: the first word is how far the branch is ahead, the second
/// how far behind. The changes are as many as the status has lines.
pub open spec fn info_of(probe: RepoProbeView) -> RepoInfoView {
    let upstream = or_dash(probe.upstream);
    RepoInfoView {
        name: probe.name,
        path: probe.path,
        branch: branch_of(probe),
        upstream: upstream,
        ahead: if upstream != "-"@ {
            count_in(first_word(counts_of(probe)))
        } else {
            None
        },
        behind: if upstream != "-"@ {
            count_in(second_word(counts_of(probe)))
        } else {
            None
        },
        changes: match probe.status {
            Some(text) => line_count(text),
            None => 0,
        },
    }
}

fn text_or_dash(output: &Option<String>) -> (text: String)
    ensures
        text@ == or_dash(text_of(*output)),
{
    match output {
        Some(text) => text.clone(),
        None => "-".to_owned(),
    }
}

fn same_text(a: &str, b: &str) -> (same: bool)
    ensures
        same == (a@ == b@),
{
    let x = chars_of(a);
    let y = chars_of(b);
    chars_equal(x.as_slice(), y.as_slice())
}

/// Whether `git` said that no branch is checked out, so that the short hash
/// of the commit has to be asked for.
pub fn needs_short_head(head: &Option<String>) -> (b: bool)
    ensures
        b == (or_dash(text_of(*head)) == "HEAD"@),
{
    let text = text_or_dash(head);
    same_text(text.as_str(), "HEAD")
}

/// Whether a repository has an upstream, so that its counts can be asked for.
pub fn has_upstream(upstream: &Option<String>) -> (b: bool)
    ensures
        b == (or_dash(text_of(*upstream)) != "-"@),
{
    let text = text_or_dash(upstream);
    !same_text(text.as_str(), "-")
}

/// The range of commits by which a branch and its upstream differ, as
/// `git rev-list` takes it.
pub fn rev_list_range(branch: &str) -> (range: String)
    ensures
        range@ == branch@ + "...@{u}"@,
{
    let mut range = branch.to_owned();
    range.append("...@{u}");
    range
}

/// The state of one repository.
pub fn get_repo_info(probe: &RepoProbe) -> (info: RepoInfo)
    ensures
        info@ == info_of(probe@),
{
    let branch = if needs_short_head(&probe.head) {
        text_or_dash(&probe.short_head)
    } else {
        text_or_dash(&probe.head)
    };
    let upstream = text_or_dash(&probe.upstream);
    let mut ahead: Option<u32> = None;
    let mut behind: Option<u32> = None;
    if has_upstream(&probe.upstream) {
        let counts = match &probe.counts {
            Some(text) => chars_of(text.as_str()),
            None => chars_of("0\t0"),
        };
        assert(counts@ == counts_of(probe@));
        match find_word(counts.as_slice(), 0) {
            Some((start, end)) => {
                ahead = parse_u32(&counts[start..end]);
                match find_word(counts.as_slice(), end) {
                    Some((from, to)) => {
                        behind = parse_u32(&counts[from..to]);
                    },
                    None => {},
                }
            },
            None => {},
        }
    }
    let changes = match &probe.status {
        Some(text) => {
            let lines = chars_of(text.as_str());
            count_lines(lines.as_slice())
        },
        None => 0,
    };
    RepoInfo {
        name: probe.name.clone(),
        path: probe.path.clone(),
        branch,
        upstream,
        ahead,
        behind,
        changes,
    }
}

/// `s` in small letters, as Unicode maps each character.
pub uninterp spec fn lowercase(s: Seq<char>) -> Seq<char>;

/// `str::to_lowercase`: the text in small letters. The result depends on the
/// characters of the text alone.
#[verifier::external_body]
pub(crate) fn lowercase_of(s: &str) -> (lower: String)
    ensures
        lower@ == lowercase(s@),
{
    s.to_lowercase()
}

/// The keys by which repositories are listed: their names in small letters.
pub open spec fn name_keys(probes: Seq<RepoProbe>) -> Seq<Seq<char>> {
    probes.map_values(|probe: RepoProbe| lowercase(probe.name@))
}

/// The states of the repositories, sorted by name without regard to case.
/// Repositories whose names differ in case only keep their order.
pub fn get_repos_info_parallel(repos: Vec<RepoProbe>) -> (infos: Vec<RepoInfo>)
    ensures
        infos@.len() == repos@.len(),
        forall|p: int|
            0 <= p < infos@.len() ==> (#[trigger] infos@[p])@ == info_of(
                repos@[stable_order(name_keys(repos@))[p]]@,
            ),
{
    let mut found: Vec<RepoInfo> = Vec::new();
    let mut keys: Vec<Vec<char>> = Vec::new();
    let mut k: usize = 0;
    while k < repos.len()
        invariant
            k <= repos@.len(),
            found@.len() == k,
            keys@.len() == k,
            forall|j: int| 0 <= j < k ==> (#[trigger] found@[j])@ == info_of(repos@[j]@),
            forall|j: int| 0 <= j < k ==> (#[trigger] keys@[j])@ == lowercase(repos@[j].name@),
        decreases repos.len() - k,
    {
        let info = get_repo_info(&repos[k]);
        let lower = lowercase_of(info.name.as_str());
        keys.push(chars_of(lower.as_str()));
        found.push(info);
        k += 1;
    }
    assert(key_texts(keys@) =~= name_keys(repos@));
    proof {
        crate::repo::order::lemma_order_from_ranks(name_keys(repos@), 0);
    }
    let sorted = sort_by_keys(found, keys);
    sorted
}

} // verus!
