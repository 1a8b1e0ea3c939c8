use synapse_cli::git::clone::{gen_clone_commands as gen_transport_commands, to_http, to_ssh};
use synapse_cli::repo::clone::{
    clone_command, gen_clone_commands, no_remote_line, script_content, RepoRemote,
};

fn remote(name: &str, url: Option<&str>) -> RepoRemote {
    RepoRemote { name: name.to_string(), url: url.map(|u| u.to_string()) }
}

#[test]
fn http_from_scp_like_address() {
    assert_eq!(to_http("git@github.com:user/repo.git"), "https://github.com/user/repo.git");
}

#[test]
fn http_from_ssh_address() {
    assert_eq!(to_http("ssh://git@github.com/user/repo.git"), "https://github.com/user/repo.git");
}

#[test]
fn http_stays() {
    assert_eq!(to_http("https://github.com/user/repo.git"), "https://github.com/user/repo.git");
    assert_eq!(to_http("http://host/x"), "http://host/x");
    assert_eq!(to_http(""), "");
    assert_eq!(to_http("git"), "git");
}

#[test]
fn http_cuts_at_the_first_colon() {
    assert_eq!(to_http("git@host:2222:a/b"), "https://host/2222:a/b");
    assert_eq!(to_http("git@:x"), "https:///x");
    assert_eq!(to_http("git@host:"), "https://host/");
}

#[test]
fn http_without_colon_stays() {
    assert_eq!(to_http("git@host/path"), "git@host/path");
    assert_eq!(to_http("git@"), "git@");
}

#[test]
fn http_from_bare_ssh_prefix() {
    assert_eq!(to_http("ssh://git@"), "https://");
}

#[test]
fn ssh_from_https() {
    assert_eq!(to_ssh("https://github.com/user/repo.git"), "git@github.com:user/repo.git");
}

#[test]
fn ssh_from_http() {
    assert_eq!(to_ssh("http://github.com/user/repo.git"), "git@github.com:user/repo.git");
}

#[test]
fn ssh_cuts_at_the_first_slash() {
    assert_eq!(to_ssh("https://h/a/b/c"), "git@h:a/b/c");
    assert_eq!(to_ssh("https:///x"), "git@:x");
}

#[test]
fn ssh_without_path_stays() {
    assert_eq!(to_ssh("https://host"), "https://host");
    assert_eq!(to_ssh("http://"), "http://");
}

#[test]
fn ssh_stays() {
    assert_eq!(to_ssh("git@github.com:user/repo.git"), "git@github.com:user/repo.git");
    assert_eq!(to_ssh("ssh://git@h/x"), "ssh://git@h/x");
    assert_eq!(to_ssh("HTTPS://h/x"), "HTTPS://h/x");
    assert_eq!(to_ssh(""), "");
}

#[test]
fn forms_are_not_inverse_for_ssh_scheme() {
    assert_eq!(to_ssh(&to_http("ssh://git@h/u/r")), "git@h:u/r");
    assert_eq!(to_http(&to_ssh("https://h/u/r")), "https://h/u/r");
}

#[test]
fn lines() {
    assert_eq!(clone_command("u"), "git clone u");
    assert_eq!(no_remote_line("repo"), "# repo - no remote");
}

#[test]
fn commands_keep_addresses() {
    let repos = vec![
        remote("a", Some("git@h:u/a.git")),
        remote("b", None),
        remote("c", Some("https://h/u/c.git")),
    ];
    assert_eq!(
        gen_clone_commands(repos),
        vec![
            "git clone git@h:u/a.git".to_string(),
            "# b - no remote".to_string(),
            "git clone https://h/u/c.git".to_string(),
        ]
    );
}

#[test]
fn commands_for_no_repository() {
    assert_eq!(gen_clone_commands(Vec::new()), Vec::<String>::new());
    assert_eq!(gen_transport_commands(Vec::new(), "ssh"), Vec::<String>::new());
}

#[test]
fn commands_over_ssh() {
    let repos = vec![
        remote("a", Some("git@h:u/a.git")),
        remote("b", None),
        remote("c", Some("https://h/u/c.git")),
    ];
    assert_eq!(
        gen_transport_commands(repos, "ssh"),
        vec![
            "git clone git@h:u/a.git".to_string(),
            "# b - no remote".to_string(),
            "git clone git@h:u/c.git".to_string(),
        ]
    );
}

#[test]
fn commands_over_http() {
    let repos = vec![
        remote("a", Some("git@h:u/a.git")),
        remote("b", None),
        remote("c", Some("https://h/u/c.git")),
    ];
    assert_eq!(
        gen_transport_commands(repos, "http"),
        vec![
            "git clone https://h/u/a.git".to_string(),
            "# b - no remote".to_string(),
            "git clone https://h/u/c.git".to_string(),
        ]
    );
}

#[test]
fn any_other_transport_means_http() {
    let repos = vec![remote("a", Some("git@h:u/a.git"))];
    assert_eq!(gen_transport_commands(repos, "SSH"), vec!["git clone https://h/u/a.git".to_string()]);
    let repos = vec![remote("a", Some("git@h:u/a.git"))];
    assert_eq!(gen_transport_commands(repos, ""), vec!["git clone https://h/u/a.git".to_string()]);
}

#[test]
fn script() {
    assert_eq!(script_content(&Vec::new()), "#!/bin/bash\n\n");
    assert_eq!(
        script_content(&vec!["git clone a".to_string(), "# b - no remote".to_string()]),
        "#!/bin/bash\n\ngit clone a\n# b - no remote\n"
    );
}
