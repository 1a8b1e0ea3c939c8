use synapse_cli::cli::{Cli, Commands, DbCommands, RepoCommands, Step, WorkspaceCommands};

fn repo(command: RepoCommands) -> Commands {
    Commands::Repo { command }
}

#[test]
fn ls_lists() {
    let c = repo(RepoCommands::Ls { fetch: false, pull: false, clean: false });
    assert_eq!(c.steps(), vec![Step::ListRepos]);
    assert!(c.needs_repos());
}

#[test]
fn ls_does_what_its_flags_ask_first() {
    let c = repo(RepoCommands::Ls { fetch: true, pull: false, clean: false });
    assert_eq!(c.steps(), vec![Step::FetchRepos, Step::ListRepos]);
    let c = repo(RepoCommands::Ls { fetch: false, pull: true, clean: true });
    assert_eq!(c.steps(), vec![Step::PullRepos, Step::CleanRepos, Step::ListRepos]);
    let c = repo(RepoCommands::Ls { fetch: true, pull: true, clean: true });
    assert_eq!(
        c.steps(),
        vec![Step::FetchRepos, Step::PullRepos, Step::CleanRepos, Step::ListRepos]
    );
}

#[test]
fn switch() {
    let c = repo(RepoCommands::Switch { branch: "dev".to_string(), force: true });
    assert_eq!(c.steps(), vec![Step::SwitchBranch]);
    assert!(c.needs_repos());
}

#[test]
fn genclone() {
    let c = repo(RepoCommands::Genclone { save: false });
    assert_eq!(c.steps(), vec![Step::PrintCloneCommands]);
    assert!(c.needs_repos());
    let c = repo(RepoCommands::Genclone { save: true });
    assert_eq!(c.steps(), vec![Step::SaveCloneScript]);
}

#[test]
fn updateversion_needs_no_repositories() {
    let c = repo(RepoCommands::Updateversion {
        old_version: "1.0".to_string(),
        new_version: "1.1".to_string(),
    });
    assert_eq!(c.steps(), vec![Step::ReplaceVersion]);
    assert!(!c.needs_repos());
}

#[test]
fn workspace_commands() {
    let steps = |command| Commands::Workspace { command }.steps();
    assert_eq!(steps(WorkspaceCommands::New), vec![Step::CreateWorkspace]);
    assert_eq!(steps(WorkspaceCommands::Init), vec![Step::CreateWorkspace]);
    assert_eq!(steps(WorkspaceCommands::Ls), vec![Step::ListWorkspaces]);
    assert_eq!(
        steps(WorkspaceCommands::Cd { workspace_name: "w".to_string() }),
        vec![Step::ShowWorkspace]
    );
    assert!(!Commands::Workspace { command: WorkspaceCommands::Ls }.needs_repos());
}

#[test]
fn db_commands() {
    let cli = Cli {
        command: Commands::Db { command: DbCommands::Rmid { sql_file_path: "d.sql".to_string() } },
    };
    assert_eq!(cli.command.steps(), vec![Step::RemoveIds]);
    assert!(!cli.command.needs_repos());
}
