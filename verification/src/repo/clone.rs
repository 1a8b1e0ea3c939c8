//! The commands that clone a set of repositories again.

use vstd::prelude::*;
use vstd::string::StringExecFns;

verus! {

/// A repository as a clone command needs it: the name of its directory and,
/// where it has one, the address of the remote it came from.
#[derive(Debug)]
pub struct RepoRemote {
    pub name: String,
    pub url: Option<String>,
}

/// The line for one repository: the command that clones its remote, or a
/// comment that says that it has none.
pub open spec fn clone_line(remote: RepoRemote) -> Seq<char> {
    match remote.url {
        Some(url) => "git clone "@ + url@,
        None => "# "@ + remote.name@ + " - no remote"@,
    }
}

/// The comment that stands for a repository without a remote.
pub fn no_remote_line(name: &str) -> (line: String)
    ensures
        line@ == "# "@ + name@ + " - no remote"@,
{
    let mut line = "# ".to_owned();
    line.append(name);
    line.append(" - no remote");
    line
}

/// The command that clones `url`.
pub fn clone_command(url: &str) -> (line: String)
    ensures
        line@ == "git clone "@ + url@,
{
    let mut line = "git clone ".to_owned();
    line.append(url);
    line
}

/// One line for each repository, in their order: the command that clones its
/// remote, with the address as it is, or a comment where it has no remote.
pub fn gen_clone_commands(repos: Vec<RepoRemote>) -> (commands: Vec<String>)
    ensures
        commands@.len() == repos@.len(),
        forall|k: int| 0 <= k < repos@.len() ==> commands@[k]@ == clone_line(repos@[k]),
{
    let mut commands: Vec<String> = Vec::new();
    let mut k: usize = 0;
    while k < repos.len()
        invariant
            k <= repos@.len(),
            commands@.len() == k,
            forall|j: int| 0 <= j < k ==> commands@[j]@ == clone_line(repos@[j]),
        decreases repos.len() - k,
    {
        let line = match &repos[k].url {
            Some(url) => clone_command(url.as_str()),
            None => no_remote_line(repos[k].name.as_str()),
        };
        commands.push(line);
        k += 1;
    }
    commands
}

/// The text of a shell script that runs `cmds` one after the other: the
/// interpreter line, an empty line, and each command on a line of its own.
pub open spec fn script_text(cmds: Seq<String>) -> Seq<char>
    decreases cmds.len(),
{
    if cmds.len() == 0 {
        "#!/bin/bash\n\n"@
    } else {
        script_text(cmds.drop_last()) + cmds.last()@ + seq!['\n']
    }
}

/// The text of a shell script that runs `cmds` one after the other.
pub fn script_content(cmds: &[String]) -> (content: String)
    ensures
        content@ == script_text(cmds@),
{
    let mut content = "#!/bin/bash\n\n".to_owned();
    let mut k: usize = 0;
    assert(cmds@.take(0) =~= Seq::<String>::empty());
    while k < cmds.len()
        invariant
            k <= cmds@.len(),
            content@ == script_text(cmds@.take(k as int)),
        decreases cmds.len() - k,
    {
        content.append(cmds[k].as_str());
        content.append("\n");
        proof {
            reveal_strlit("\n");
            assert("\n"@ =~= seq!['\n']);
            assert(cmds@.take(k as int + 1).drop_last() =~= cmds@.take(k as int));
        }
        k += 1;
    }
    assert(cmds@.take(cmds@.len() as int) =~= cmds@);
    content
}

} // verus!
