use synapse_cli::text::{chars_of, lines_of, string_of};
use synapse_cli::version::listed_files;
use synapse_cli::workspace::{
    create_workspace, find_workspace, init_workspace, parse_workspaces, workspaces_content,
    Workspace, WorkspaceError,
};

fn pairs(workspaces: &[Workspace]) -> Vec<(String, String)> {
    workspaces.iter().map(|w| (w.name.clone(), w.path.clone())).collect()
}

fn pair(name: &str, path: &str) -> (String, String) {
    (name.to_string(), path.to_string())
}

fn workspace(name: &str, path: &str) -> Workspace {
    Workspace { name: name.to_string(), path: path.to_string() }
}

fn lines(s: &str) -> Vec<String> {
    lines_of(&chars_of(s)).iter().map(|l| string_of(l)).collect()
}

#[test]
fn lines_agree_with_the_standard_library() {
    for s in [
        "", "a", "a\n", "a\nb", "\n", "\n\n", "a\r\nb\r", "\r", "\r\n", "a\r\r\n", "x\n\r\ny",
        "日本\r\n語", "a\n\nb\n",
    ] {
        let expected: Vec<String> = s.lines().map(|l| l.to_string()).collect();
        assert_eq!(lines(s), expected, "{:?}", s);
    }
}

#[test]
fn parses_one_workspace_per_line() {
    let ws = parse_workspaces("tool=/work/tool\nsite=/srv/site\n");
    assert_eq!(pairs(&ws), vec![pair("tool", "/work/tool"), pair("site", "/srv/site")]);
}

#[test]
fn parses_without_final_line_feed() {
    let ws = parse_workspaces("tool=/work/tool\nsite=/srv/site");
    assert_eq!(pairs(&ws), vec![pair("tool", "/work/tool"), pair("site", "/srv/site")]);
}

#[test]
fn parse_cuts_at_the_first_equals_sign() {
    let ws = parse_workspaces("a=b=c\n=x\ny=\n=");
    assert_eq!(pairs(&ws), vec![pair("a", "b=c"), pair("", "x"), pair("y", ""), pair("", "")]);
}

#[test]
fn parse_passes_over_lines_without_equals_sign() {
    let ws = parse_workspaces("# workspaces\n\ntool=/work/tool\nbroken line\n");
    assert_eq!(pairs(&ws), vec![pair("tool", "/work/tool")]);
}

#[test]
fn parse_of_nothing() {
    assert!(parse_workspaces("").is_empty());
    assert!(parse_workspaces("\n\n").is_empty());
}

#[test]
fn parse_takes_carriage_returns_off_line_ends() {
    let ws = parse_workspaces("a=/x\r\nb=/y\r");
    assert_eq!(pairs(&ws), vec![pair("a", "/x"), pair("b", "/y\r")]);
}

#[test]
fn writes_lines_with_line_feeds_between() {
    assert_eq!(workspaces_content(&Vec::new()), "");
    assert_eq!(workspaces_content(&vec![workspace("a", "/x")]), "a=/x");
    assert_eq!(
        workspaces_content(&vec![workspace("a", "/x"), workspace("b", "/y z")]),
        "a=/x\nb=/y z"
    );
}

#[test]
fn written_list_reads_back() {
    let ws = vec![workspace("tool", "/work/tool"), workspace("site", "/srv/a=b")];
    let back = parse_workspaces(&workspaces_content(&ws));
    assert_eq!(pairs(&back), pairs(&ws));
}

#[test]
fn finds_the_first_of_a_name() {
    let ws = vec![workspace("a", "/1"), workspace("b", "/2"), workspace("a", "/3")];
    assert_eq!(find_workspace(&ws, "a"), Some(0));
    assert_eq!(find_workspace(&ws, "b"), Some(1));
    assert_eq!(find_workspace(&ws, "c"), None);
    assert_eq!(find_workspace(&ws, "A"), None);
    assert_eq!(find_workspace(&Vec::new(), "a"), None);
}

#[test]
fn creates_at_the_end() {
    let mut ws = vec![workspace("a", "/1")];
    assert_eq!(create_workspace(&mut ws, "b", "/2"), Ok(()));
    assert_eq!(pairs(&ws), vec![pair("a", "/1"), pair("b", "/2")]);
}

#[test]
fn refuses_a_name_twice() {
    let mut ws = vec![workspace("a", "/1"), workspace("b", "/2")];
    assert_eq!(create_workspace(&mut ws, "a", "/other"), Err(WorkspaceError::AlreadyExists));
    assert_eq!(pairs(&ws), vec![pair("a", "/1"), pair("b", "/2")]);
}

#[test]
fn init_is_create() {
    let mut ws = Vec::new();
    assert_eq!(init_workspace(&mut ws, "a", "/1"), Ok(()));
    assert_eq!(init_workspace(&mut ws, "a", "/1"), Err(WorkspaceError::AlreadyExists));
    assert_eq!(pairs(&ws), vec![pair("a", "/1")]);
}

#[test]
fn files_of_a_search() {
    assert_eq!(
        listed_files("./a/Cargo.toml\n  ./b/pom.xml \r\n\n./c\n"),
        vec!["./a/Cargo.toml".to_string(), "./b/pom.xml".to_string(), String::new(), "./c".to_string()]
    );
    assert_eq!(listed_files(""), Vec::<String>::new());
}

#[test]
fn files_agree_with_the_standard_library() {
    for s in ["", "a\n", " a \n\tb", "\n", "x\r\n y\r", "\u{a0}z\u{2003}\n"] {
        let expected: Vec<String> = s.lines().map(|l| l.trim().to_string()).collect();
        assert_eq!(listed_files(s), expected, "{:?}", s);
    }
}
