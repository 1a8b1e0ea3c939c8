//! How a repository is brought to a branch.

use vstd::prelude::*;
use vstd::string::StringExecFns;

verus! {

/// What to do to bring a repository to a branch.
#[derive(Clone, Copy, Debug, PartialEq, Eq, Structural)]
pub enum SwitchAction {
    /// Check the branch out: the repository has it.
    CheckoutLocal,
    /// Create the branch from the remote's branch of that name and check it
    /// out.
    TrackRemote,
    /// Create the branch where the repository stands and check it out.
    CreateBranch,
    /// Do nothing: the branch exists nowhere and is not to be created.
    Refuse,
}

/// The action for a repository. A branch that the repository has is checked
/// out. One that only the remote has is created from the remote's. One that
/// neither has is created where `force` is set, and refused otherwise.
pub open spec fn switch_action(local_exists: bool, remote_exists: bool, force: bool)
    -> SwitchAction {
    if local_exists {
        SwitchAction::CheckoutLocal
    } else if remote_exists {
        SwitchAction::TrackRemote
    } else if force {
        SwitchAction::CreateBranch
    } else {
        SwitchAction::Refuse
    }
}

/// The action that brings a repository to a branch, from where the branch
/// exists and whether it may be created.
pub fn choose_switch(local_exists: bool, remote_exists: bool, force: bool) -> (action: SwitchAction)
    ensures
        action == switch_action(local_exists, remote_exists, force),
{
    if local_exists {
        SwitchAction::CheckoutLocal
    } else if remote_exists {
        SwitchAction::TrackRemote
    } else if force {
        SwitchAction::CreateBranch
    } else {
        SwitchAction::Refuse
    }
}

/// The name of the remote that branches are taken from.
pub fn default_remote() -> (remote: String)
    ensures
        remote@ == "origin"@,
{
    "origin".to_owned()
}

/// The full name of a branch of the repository.
pub fn local_ref(branch: &str) -> (name: String)
    ensures
        name@ == "refs/heads/"@ + branch@,
{
    let mut name = "refs/heads/".to_owned();
    name.append(branch);
    name
}

/// The name of a remote's branch as the repository knows it: the remote, a
/// slash, the branch.
pub fn remote_branch(remote: &str, branch: &str) -> (name: String)
    ensures
        name@ == remote@ + "/"@ + branch@,
{
    let mut name = remote.to_owned();
    name.append("/");
    name.append(branch);
    name
}

/// The full name of a remote's branch.
pub fn remote_ref(remote: &str, branch: &str) -> (name: String)
    ensures
        name@ == "refs/remotes/"@ + (remote@ + "/"@ + branch@),
{
    let mut name = "refs/remotes/".to_owned();
    let short = remote_branch(remote, branch);
    name.append(short.as_str());
    name
}

} // verus!
