//! Clone commands whose addresses are rewritten for one transport.

use crate::repo::clone::{clone_command, no_remote_line, RepoRemote};
use crate::text::{
    append_range, chars_equal, chars_of, find_char, has_prefix, position_of, starts_with, string_of,
};
use vstd::prelude::*;

verus! {

/// `host`, `between`, `path`, where `address` reads `host`, `at`, `path` and
/// `at` is the first of its kind; nothing where `at` does not stand in
/// `address`.
pub open spec fn with_separator(address: Seq<char>, at: char, between: char) -> Option<Seq<char>> {
    let cut = position_of(address, at);
    if cut < address.len() {
        Some(address.take(cut) + seq![between] + address.skip(cut + 1))
    } else {
        None
    }
}

/// An address in its form for HTTP.
///
/// `git@host:path` becomes `https://host/path`, and `ssh://git@rest` becomes
/// `https://rest`. Every other address, and one that begins with `git@` and
/// has no colon, stays as it is.
pub open spec fn http_form(url: Seq<char>) -> Seq<char> {
    if has_prefix(url, "git@"@) {
        match with_separator(url.skip("git@"@.len() as int), ':', '/') {
            Some(address) => "https://"@ + address,
            None => url,
        }
    } else if has_prefix(url, "ssh://git@"@) {
        "https://"@ + url.skip("ssh://git@"@.len() as int)
    } else {
        url
    }
}

/// An address in its form for SSH.
///
/// `https://host/path` and `http://host/path` become `git@host:path`. Every
/// other address, and one with no slash behind the host, stays as it is.
pub open spec fn ssh_form(url: Seq<char>) -> Seq<char> {
    if has_prefix(url, "https://"@) {
        match with_separator(url.skip("https://"@.len() as int), '/', ':') {
            Some(address) => "git@"@ + address,
            None => url,
        }
    } else if has_prefix(url, "http://"@) {
        match with_separator(url.skip("http://"@.len() as int), '/', ':') {
            Some(address) => "git@"@ + address,
            None => url,
        }
    } else {
        url
    }
}

/// `lead` and then `address` with its first `at` replaced by `between`;
/// nothing where `at` does not stand in `address`.
fn replace_separator(lead: &str, address: &[char], at: char, between: char) -> (r: Option<String>)
    ensures
        match r {
            Some(text) => with_separator(address@, at, between) == Some(
                text@.skip(lead@.len() as int),
            ) && text@.take(lead@.len() as int) == lead@ && text@.len() >= lead@.len(),
            None => with_separator(address@, at, between) is None,
        },
{
    let cut = find_char(address, at);
    if cut < address.len() {
        let mut text = chars_of(lead);
        append_range(&mut text, address, 0, cut);
        text.push(between);
        append_range(&mut text, address, cut + 1, address.len());
        let ghost joined = address@.take(cut as int) + seq![between] + address@.skip(
            cut as int + 1,
        );
        assert(text@ =~= lead@ + joined);
        assert(text@.skip(lead@.len() as int) =~= joined);
        assert(text@.take(lead@.len() as int) =~= lead@);
        Some(string_of(text.as_slice()))
    } else {
        None
    }
}

/// An address in its form for HTTP.
pub fn to_http(url: &str) -> (out: String)
    ensures
        out@ == http_form(url@),
{
    let address = chars_of(url);
    let git_at = chars_of("git@");
    let ssh_git_at = chars_of("ssh://git@");
    if starts_with(address.as_slice(), git_at.as_slice()) {
        let rest = &address[git_at.len()..address.len()];
        assert(rest@ =~= url@.skip("git@"@.len() as int));
        match replace_separator("https://", rest, ':', '/') {
            Some(text) => {
                assert(text@ =~= text@.take("https://"@.len() as int) + text@.skip(
                    "https://"@.len() as int,
                ));
                text
            },
            None => url.to_owned(),
        }
    } else if starts_with(address.as_slice(), ssh_git_at.as_slice()) {
        let mut text = chars_of("https://");
        append_range(&mut text, address.as_slice(), ssh_git_at.len(), address.len());
        assert(url@.subrange("ssh://git@"@.len() as int, url@.len() as int) =~= url@.skip(
            "ssh://git@"@.len() as int,
        ));
        string_of(text.as_slice())
    } else {
        url.to_owned()
    }
}

/// An address in its form for SSH.
pub fn to_ssh(url: &str) -> (out: String)
    ensures
        out@ == ssh_form(url@),
{
    let address = chars_of(url);
    let https = chars_of("https://");
    let http = chars_of("http://");
    let lead = if starts_with(address.as_slice(), https.as_slice()) {
        https.len()
    } else if starts_with(address.as_slice(), http.as_slice()) {
        http.len()
    } else {
        return url.to_owned();
    };
    let rest = &address[lead..address.len()];
    assert(rest@ =~= url@.skip(lead as int));
    match replace_separator("git@", rest, '/', ':') {
        Some(text) => {
            assert(text@ =~= text@.take("git@"@.len() as int) + text@.skip("git@"@.len() as int));
            text
        },
        None => url.to_owned(),
    }
}

/// The line for one repository: the command that clones its remote, with the
/// address in its form for SSH where `transport` is `ssh` and in its form for
/// HTTP otherwise, or a comment that says that it has no remote.
pub open spec fn transport_clone_line(remote: RepoRemote, transport: Seq<char>) -> Seq<char> {
    match remote.url {
        Some(url) => "git clone "@ + (if transport == "ssh"@ {
            ssh_form(url@)
        } else {
            http_form(url@)
        }),
        None => "# "@ + remote.name@ + " - no remote"@,
    }
}

/// One line for each repository, in their order: the command that clones its
/// remote over `transport`, or a comment where it has no remote.
pub fn gen_clone_commands(repos: Vec<RepoRemote>, transport: &str) -> (commands: Vec<String>)
    ensures
        commands@.len() == repos@.len(),
        forall|k: int|
            0 <= k < repos@.len() ==> commands@[k]@ == transport_clone_line(repos@[k], transport@),
{
    let wanted = chars_of(transport);
    let ssh = chars_of("ssh");
    let over_ssh = chars_equal(wanted.as_slice(), ssh.as_slice());
    let mut commands: Vec<String> = Vec::new();
    let mut k: usize = 0;
    while k < repos.len()
        invariant
            k <= repos@.len(),
            over_ssh == (transport@ == "ssh"@),
            commands@.len() == k,
            forall|j: int|
                0 <= j < k ==> commands@[j]@ == transport_clone_line(repos@[j], transport@),
        decreases repos.len() - k,
    {
        let line = match &repos[k].url {
            Some(url) => {
                let address = if over_ssh {
                    to_ssh(url.as_str())
                } else {
                    to_http(url.as_str())
                };
                clone_command(address.as_str())
            },
            None => no_remote_line(repos[k].name.as_str()),
        };
        commands.push(line);
        k += 1;
    }
    commands
}

} // verus!
