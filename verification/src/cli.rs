//! The commands of the tool, and what each of them sets to work.

use vstd::prelude::*;

verus! {

/// A command line, read.
#[derive(Debug)]
pub struct Cli {
    pub command: Commands,
}

/// The groups of commands.
#[derive(Debug)]
#[allow(inconsistent_fields)]
pub enum Commands {
    /// Commands on the repositories below the current directory.
    Repo { command: RepoCommands },
    /// Commands on the list of workspaces.
    Workspace { command: WorkspaceCommands },
    /// Commands on SQL dumps.
    Db { command: DbCommands },
}

/// The commands on repositories.
#[derive(Debug)]
pub enum RepoCommands {
    /// Shows every repository below the current directory; before that it
    /// fetches, pulls or cleans them where asked to.
    Ls { fetch: bool, pull: bool, clean: bool },
    /// Switches every repository to a branch, creating the branch where
    /// `force` is set and it exists nowhere.
    Switch { branch: String, force: bool },
    /// Writes the commands that clone every repository again, to a script
    /// where `save` is set.
    Genclone { save: bool },
    /// Replaces one version number by another in the files below the current
    /// directory.
    Updateversion { old_version: String, new_version: String },
}

/// The commands on workspaces.
#[derive(Debug)]
pub enum WorkspaceCommands {
    /// Records the current directory as a new workspace.
    New,
    /// The same as `New`.
    Init,
    /// Lists the workspaces.
    Ls,
    /// Shows how to change to a workspace.
    Cd { workspace_name: String },
}

/// The commands on SQL dumps.
#[derive(Debug)]
pub enum DbCommands {
    /// Takes the `id` column and its values out of the `INSERT` statements of
    /// a SQL file.
    Rmid { sql_file_path: String },
}

/// One piece of work that a command sets going.
#[derive(Clone, Copy, Debug, PartialEq, Eq, Structural)]
pub enum Step {
    FetchRepos,
    PullRepos,
    CleanRepos,
    ListRepos,
    SwitchBranch,
    PrintCloneCommands,
    SaveCloneScript,
    ReplaceVersion,
    CreateWorkspace,
    ListWorkspaces,
    ShowWorkspace,
    RemoveIds,
}

impl Commands {
    /// Whether the command works on the repositories below the current
    /// directory, so that without any there is nothing to do.
    pub open spec fn spec_needs_repos(&self) -> bool {
        match self {
            Commands::Repo { command } => !(command is Updateversion),
            _ => false,
        }
    }

    /// The work of the command, in the order in which it is done. `Ls` does
    /// what its flags ask for, in the order fetch, pull, clean, and then lists.
    pub open spec fn spec_steps(&self) -> Seq<Step> {
        match self {
            Commands::Repo { command } => match command {
                RepoCommands::Ls { fetch, pull, clean } => (if *fetch {
                    seq![Step::FetchRepos]
                } else {
                    Seq::empty()
                }) + (if *pull {
                    seq![Step::PullRepos]
                } else {
                    Seq::empty()
                }) + (if *clean {
                    seq![Step::CleanRepos]
                } else {
                    Seq::empty()
                }) + seq![Step::ListRepos],
                RepoCommands::Switch { .. } => seq![Step::SwitchBranch],
                RepoCommands::Genclone { save } => if *save {
                    seq![Step::SaveCloneScript]
                } else {
                    seq![Step::PrintCloneCommands]
                },
                RepoCommands::Updateversion { .. } => seq![Step::ReplaceVersion],
            },
            Commands::Workspace { command } => match command {
                WorkspaceCommands::New => seq![Step::CreateWorkspace],
                WorkspaceCommands::Init => seq![Step::CreateWorkspace],
                WorkspaceCommands::Ls => seq![Step::ListWorkspaces],
                WorkspaceCommands::Cd { .. } => seq![Step::ShowWorkspace],
            },
            Commands::Db { command } => match command {
                DbCommands::Rmid { .. } => seq![Step::RemoveIds],
            },
        }
    }

    /// Whether the command works on the repositories below the current
    /// directory.
    pub fn needs_repos(&self) -> (b: bool)
        ensures
            b == self.spec_needs_repos(),
    {
        match self {
            Commands::Repo { command } => match command {
                RepoCommands::Updateversion { .. } => false,
                _ => true,
            },
            _ => false,
        }
    }

    /// The work of the command, in the order in which it is done.
    pub fn steps(&self) -> (steps: Vec<Step>)
        ensures
            steps@ == self.spec_steps(),
    {
        let mut steps: Vec<Step> = Vec::new();
        match self {
            Commands::Repo { command } => match command {
                RepoCommands::Ls { fetch, pull, clean } => {
                    if *fetch {
                        steps.push(Step::FetchRepos);
                    }
                    if *pull {
                        steps.push(Step::PullRepos);
                    }
                    if *clean {
                        steps.push(Step::CleanRepos);
                    }
                    steps.push(Step::ListRepos);
                },
                RepoCommands::Switch { .. } => {
                    steps.push(Step::SwitchBranch);
                },
                RepoCommands::Genclone { save } => {
                    if *save {
                        steps.push(Step::SaveCloneScript);
                    } else {
                        steps.push(Step::PrintCloneCommands);
                    }
                },
                RepoCommands::Updateversion { .. } => {
                    steps.push(Step::ReplaceVersion);
                },
            },
            Commands::Workspace { command } => match command {
                WorkspaceCommands::New => {
                    steps.push(Step::CreateWorkspace);
                },
                WorkspaceCommands::Init => {
                    steps.push(Step::CreateWorkspace);
                },
                WorkspaceCommands::Ls => {
                    steps.push(Step::ListWorkspaces);
                },
                WorkspaceCommands::Cd { .. } => {
                    steps.push(Step::ShowWorkspace);
                },
            },
            Commands::Db { command } => match command {
                DbCommands::Rmid { .. } => {
                    steps.push(Step::RemoveIds);
                },
            },
        }
        assert(steps@ =~= self.spec_steps());
        steps
    }
}

} // verus!
