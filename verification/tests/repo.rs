use synapse_cli::repo::order::{chars_le, sort_by_keys};
use synapse_cli::repo::parse::{count_lines, find_word, parse_u32};
use synapse_cli::repo::repo::{
    get_repo_info, get_repos_info_parallel, has_upstream, needs_short_head, rev_list_range,
    RepoProbe,
};
use synapse_cli::text::chars_of;

fn text(s: &str) -> Option<String> {
    Some(s.to_string())
}

fn probe(name: &str) -> RepoProbe {
    RepoProbe {
        name: name.to_string(),
        path: format!("/work/{}", name),
        head: text("main"),
        short_head: None,
        upstream: text("origin/main"),
        counts: text("2\t5"),
        status: text(" M a.rs\n?? b.rs"),
    }
}

#[test]
fn info_of_a_tracked_branch() {
    let info = get_repo_info(&probe("tool"));
    assert_eq!(info.name, "tool");
    assert_eq!(info.path, "/work/tool");
    assert_eq!(info.branch, "main");
    assert_eq!(info.upstream, "origin/main");
    assert_eq!(info.ahead, Some(2));
    assert_eq!(info.behind, Some(5));
    assert_eq!(info.changes, 2);
}

#[test]
fn info_of_a_detached_head() {
    let mut p = probe("tool");
    p.head = text("HEAD");
    p.short_head = text("abc1234");
    assert_eq!(get_repo_info(&p).branch, "abc1234");
    p.short_head = None;
    assert_eq!(get_repo_info(&p).branch, "-");
}

#[test]
fn info_short_head_is_not_read_on_a_branch() {
    let mut p = probe("tool");
    p.short_head = text("abc1234");
    assert_eq!(get_repo_info(&p).branch, "main");
}

#[test]
fn info_without_anything() {
    let p = RepoProbe {
        name: "x".to_string(),
        path: "x".to_string(),
        head: None,
        short_head: None,
        upstream: None,
        counts: None,
        status: None,
    };
    let info = get_repo_info(&p);
    assert_eq!(info.branch, "-");
    assert_eq!(info.upstream, "-");
    assert_eq!(info.ahead, None);
    assert_eq!(info.behind, None);
    assert_eq!(info.changes, 0);
}

#[test]
fn info_counts_are_not_read_without_upstream() {
    let mut p = probe("tool");
    p.upstream = None;
    let info = get_repo_info(&p);
    assert_eq!((info.ahead, info.behind), (None, None));
    p.upstream = text("-");
    let info = get_repo_info(&p);
    assert_eq!((info.ahead, info.behind), (None, None));
}

#[test]
fn info_missing_counts_read_as_zero() {
    let mut p = probe("tool");
    p.counts = None;
    let info = get_repo_info(&p);
    assert_eq!((info.ahead, info.behind), (Some(0), Some(0)));
}

#[test]
fn info_counts_that_are_no_numbers() {
    let mut p = probe("tool");
    p.counts = text("7");
    let info = get_repo_info(&p);
    assert_eq!((info.ahead, info.behind), (Some(7), None));
    p.counts = text("");
    let info = get_repo_info(&p);
    assert_eq!((info.ahead, info.behind), (None, None));
    p.counts = text("x 3 9");
    let info = get_repo_info(&p);
    assert_eq!((info.ahead, info.behind), (None, Some(3)));
    p.counts = text("  4294967295 \n 4294967296 ");
    let info = get_repo_info(&p);
    assert_eq!((info.ahead, info.behind), (Some(4294967295), None));
}

#[test]
fn info_clean_tree() {
    let mut p = probe("tool");
    p.status = text("");
    assert_eq!(get_repo_info(&p).changes, 0);
}

#[test]
fn asks_for_short_head_only_when_detached() {
    assert!(needs_short_head(&text("HEAD")));
    assert!(!needs_short_head(&text("main")));
    assert!(!needs_short_head(&text("head")));
    assert!(!needs_short_head(&None));
}

#[test]
fn upstream_is_there_unless_dash() {
    assert!(has_upstream(&text("origin/main")));
    assert!(has_upstream(&text("")));
    assert!(!has_upstream(&text("-")));
    assert!(!has_upstream(&None));
}

#[test]
fn range_for_rev_list() {
    assert_eq!(rev_list_range("main"), "main...@{u}");
    assert_eq!(rev_list_range(""), "...@{u}");
}

#[test]
fn numbers() {
    assert_eq!(parse_u32(&chars_of("0")), Some(0));
    assert_eq!(parse_u32(&chars_of("42")), Some(42));
    assert_eq!(parse_u32(&chars_of("+42")), Some(42));
    assert_eq!(parse_u32(&chars_of("007")), Some(7));
    assert_eq!(parse_u32(&chars_of("4294967295")), Some(u32::MAX));
    assert_eq!(parse_u32(&chars_of("4294967296")), None);
    assert_eq!(parse_u32(&chars_of("99999999999999999999999999")), None);
    assert_eq!(parse_u32(&chars_of("00000000000000000000000001")), Some(1));
    assert_eq!(parse_u32(&chars_of("")), None);
    assert_eq!(parse_u32(&chars_of("+")), None);
    assert_eq!(parse_u32(&chars_of("-1")), None);
    assert_eq!(parse_u32(&chars_of("++1")), None);
    assert_eq!(parse_u32(&chars_of("1+")), None);
    assert_eq!(parse_u32(&chars_of("1 ")), None);
    assert_eq!(parse_u32(&chars_of("1a")), None);
    assert_eq!(parse_u32(&chars_of("99999999999x")), None);
    assert_eq!(parse_u32(&chars_of("١٢")), None);
}

#[test]
fn numbers_agree_with_the_standard_library() {
    for s in ["0", "42", "+42", "007", "4294967295", "4294967296", "", "+", "-1", "1a", " 1", "+0"] {
        assert_eq!(parse_u32(&chars_of(s)), s.parse::<u32>().ok(), "{:?}", s);
    }
}

#[test]
fn words() {
    let s = chars_of("  ab\t cd  ");
    assert_eq!(find_word(&s, 0), Some((2, 4)));
    assert_eq!(find_word(&s, 3), Some((3, 4)));
    assert_eq!(find_word(&s, 4), Some((6, 8)));
    assert_eq!(find_word(&s, 8), None);
    assert_eq!(find_word(&s, 10), None);
    assert_eq!(find_word(&chars_of(""), 0), None);
    assert_eq!(find_word(&chars_of("x"), 0), Some((0, 1)));
    assert_eq!(find_word(&chars_of("\u{2003}x\u{a0}"), 0), Some((1, 2)));
}

#[test]
fn line_counts() {
    assert_eq!(count_lines(&chars_of("")), 0);
    assert_eq!(count_lines(&chars_of("a")), 1);
    assert_eq!(count_lines(&chars_of("a\n")), 1);
    assert_eq!(count_lines(&chars_of("a\nb")), 2);
    assert_eq!(count_lines(&chars_of("a\n\nb\n")), 3);
    assert_eq!(count_lines(&chars_of("\n")), 1);
    assert_eq!(count_lines(&chars_of("\n\n")), 2);
    assert_eq!(count_lines(&chars_of("a\r\nb\r")), 2);
}

#[test]
fn line_counts_agree_with_the_standard_library() {
    for s in ["", "a", "a\n", "a\nb", "\n", "\n\n", "a\r\nb\r", "\r", " M x\n?? y\n D z"] {
        assert_eq!(count_lines(&chars_of(s)), s.lines().count(), "{:?}", s);
    }
}

#[test]
fn dictionary_order() {
    let le = |a: &str, b: &str| chars_le(&chars_of(a), &chars_of(b));
    assert!(le("", ""));
    assert!(le("", "a"));
    assert!(!le("a", ""));
    assert!(le("a", "a"));
    assert!(le("a", "b"));
    assert!(!le("b", "a"));
    assert!(le("ab", "abc"));
    assert!(!le("abc", "ab"));
    assert!(le("abc", "abd"));
    assert!(le("Z", "a"));
    assert!(le("z", "é"));
    assert!(le("é", "日"));
}

#[test]
fn dictionary_order_agrees_with_string_order() {
    let texts = ["", "a", "A", "ab", "b", "é", "e", "日本", "z", "😀", "\u{ffff}"];
    for a in texts {
        for b in texts {
            assert_eq!(chars_le(&chars_of(a), &chars_of(b)), a <= b, "{:?} {:?}", a, b);
        }
    }
}

#[test]
fn sort_is_stable() {
    let items = vec![10, 11, 12, 13, 14, 15];
    let keys: Vec<Vec<char>> =
        ["b", "a", "b", "c", "a", ""].iter().map(|k| chars_of(k)).collect();
    assert_eq!(sort_by_keys(items, keys), vec![15, 11, 14, 10, 12, 13]);
}

#[test]
fn sort_of_nothing_and_of_one() {
    assert_eq!(sort_by_keys(Vec::<u8>::new(), Vec::new()), Vec::<u8>::new());
    assert_eq!(sort_by_keys(vec![1u8], vec![chars_of("x")]), vec![1u8]);
}

#[test]
fn repositories_are_listed_by_name_without_case() {
    let repos = vec![probe("zeta"), probe("Alpha"), probe("beta"), probe("ALPHA"), probe("alpha")];
    let infos = get_repos_info_parallel(repos);
    let names: Vec<&str> = infos.iter().map(|i| i.name.as_str()).collect();
    assert_eq!(names, vec!["Alpha", "ALPHA", "alpha", "beta", "zeta"]);
    assert_eq!(infos[3].path, "/work/beta");
    assert_eq!(infos[3].ahead, Some(2));
}

#[test]
fn repositories_with_other_letters() {
    let repos = vec![probe("Éclair"), probe("eclair"), probe("école"), probe("Zebra")];
    let infos = get_repos_info_parallel(repos);
    let names: Vec<&str> = infos.iter().map(|i| i.name.as_str()).collect();
    assert_eq!(names, vec!["eclair", "Zebra", "Éclair", "école"]);
}

#[test]
fn no_repositories() {
    assert!(get_repos_info_parallel(Vec::new()).is_empty());
}
