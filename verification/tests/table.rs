use synapse_cli::repo::repo::RepoInfo;
use synapse_cli::repo::table::{decimal_text, table_lines};
use synapse_cli::text::string_of;

fn info(
    name: &str,
    branch: &str,
    upstream: &str,
    ahead: Option<u32>,
    behind: Option<u32>,
    changes: usize,
) -> RepoInfo {
    RepoInfo {
        name: name.to_string(),
        path: format!("/work/{}", name),
        branch: branch.to_string(),
        upstream: upstream.to_string(),
        ahead,
        behind,
        changes,
    }
}

fn formatted(infos: &[RepoInfo]) -> Vec<String> {
    let name_width = infos.iter().map(|info| info.name.len()).max().unwrap_or(4).max(4);
    let branch_width = infos.iter().map(|info| info.branch.len()).max().unwrap_or(6).max(6);
    let upstream_width = infos.iter().map(|info| info.upstream.len()).max().unwrap_or(8).max(8);
    let mut lines = vec![
        format!(
            "{:<name_width$} {:<branch_width$} {:<upstream_width$} {:>6} {:>6} {:>7}",
            "NAME",
            "BRANCH",
            "UPSTREAM",
            "AHEAD",
            "BEHIND",
            "CHANGES",
            name_width = name_width,
            branch_width = branch_width,
            upstream_width = upstream_width
        ),
        "-".repeat(name_width + branch_width + upstream_width + 26),
    ];
    for info in infos {
        let ahead_str = info.ahead.map_or("-".to_string(), |n| n.to_string());
        let behind_str = info.behind.map_or("-".to_string(), |n| n.to_string());
        lines.push(format!(
            "{:<name_width$} {:<branch_width$} {:<upstream_width$} {:>6} {:>6} {:>7}",
            info.name,
            info.branch,
            info.upstream,
            ahead_str,
            behind_str,
            info.changes,
            name_width = name_width,
            branch_width = branch_width,
            upstream_width = upstream_width
        ));
    }
    lines
}

#[test]
fn decimal_writing() {
    for n in [0u64, 1, 9, 10, 11, 99, 100, 4294967295, 4294967296, u64::MAX] {
        assert_eq!(string_of(&decimal_text(n)), n.to_string());
    }
}

#[test]
fn table_of_two() {
    let infos = vec![
        info("api", "main", "origin/main", Some(0), Some(12), 3),
        info("website-frontend", "feature/login", "-", None, None, 0),
    ];
    assert_eq!(
        table_lines(&infos),
        vec![
            "NAME             BRANCH        UPSTREAM     AHEAD BEHIND CHANGES".to_string(),
            "-".repeat(16 + 13 + 11 + 26),
            "api              main          origin/main      0     12       3".to_string(),
            "website-frontend feature/login -                -      -       0".to_string(),
        ]
    );
}

#[test]
fn table_columns_are_at_least_as_wide_as_their_headings() {
    let infos = vec![info("a", "b", "c", Some(1), Some(2), 3)];
    assert_eq!(
        table_lines(&infos),
        vec![
            "NAME BRANCH UPSTREAM  AHEAD BEHIND CHANGES".to_string(),
            "-".repeat(4 + 6 + 8 + 26),
            "a    b      c             1      2       3".to_string(),
        ]
    );
}

#[test]
fn table_of_none_has_its_headings() {
    assert_eq!(
        table_lines(&Vec::new()),
        vec![
            "NAME BRANCH UPSTREAM  AHEAD BEHIND CHANGES".to_string(),
            "-".repeat(44),
        ]
    );
}

#[test]
fn table_numbers_wider_than_their_columns_stay_whole() {
    let infos = vec![info("a", "b", "c", Some(1234567), Some(u32::MAX), 123456789)];
    assert_eq!(table_lines(&infos)[2], "a    b      c        1234567 4294967295 123456789");
}

#[test]
fn table_agrees_with_the_formatter() {
    let infos = vec![
        info("仓库", "主干", "origin/主干", Some(7), None, 10),
        info("plain", "b", "-", None, Some(1), 0),
        info("Ünïcödé-name-that-is-long", "x", "y", Some(4294967295), Some(0), 99999),
    ];
    assert_eq!(table_lines(&infos), formatted(&infos));
    let infos = vec![info("", "", "", None, None, usize::MAX)];
    assert_eq!(table_lines(&infos), formatted(&infos));
}
