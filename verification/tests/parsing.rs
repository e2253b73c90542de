use cc_sakura_line::gitinfo::{
    parse_ahead_behind, parse_branch, parse_numstat_sum, parse_repo_from_url, snapshot,
};

#[test]
fn parse_branch_from_status() {
    let output = "## main...origin/main\n M src/main.rs\n";
    assert_eq!(parse_branch(output).as_deref(), Some("main"));
}

#[test]
fn parse_branch_detached() {
    let output = "## HEAD (no branch)\n";
    assert_eq!(parse_branch(output).as_deref(), Some("detached"));
}

#[test]
fn parse_branch_rejects_other_output() {
    assert_eq!(parse_branch(""), None);
    assert_eq!(parse_branch("fatal: not a git repository\n"), None);
    assert_eq!(parse_branch("##    \n"), None);
}

#[test]
fn parse_numstat_totals() {
    let output = "10\t2\tsrc/main.rs\n3\t0\tREADME.md\n";
    assert_eq!(parse_numstat_sum(output), (13, 2));
}

#[test]
fn parse_numstat_ignores_binary() {
    let output = "-\t-\timage.png\n1\t5\tfile.txt\n";
    assert_eq!(parse_numstat_sum(output), (1, 5));
}

#[test]
fn parse_numstat_empty_and_partial_lines() {
    assert_eq!(parse_numstat_sum(""), (0, 0));
    assert_eq!(parse_numstat_sum("7\n"), (0, 0));
    assert_eq!(parse_numstat_sum("4 9 one.txt"), (4, 9));
}

#[test]
fn parse_repo_ssh_format() {
    let url = "git@github.com:kokoichi206/cc-sakura-line.git";
    assert_eq!(
        parse_repo_from_url(url).as_deref(),
        Some("kokoichi206/cc-sakura-line")
    );
}

#[test]
fn parse_repo_https_format() {
    let url = "https://github.com/kokoichi206/cc-sakura-line.git";
    assert_eq!(
        parse_repo_from_url(url).as_deref(),
        Some("kokoichi206/cc-sakura-line")
    );
}

#[test]
fn parse_repo_other_format() {
    assert_eq!(parse_repo_from_url("ssh://host/repo"), None);
}

#[test]
fn parse_ahead_behind_both() {
    let output = "## main...origin/main [ahead 2, behind 1]\n";
    assert_eq!(parse_ahead_behind(output).as_deref(), Some("↑2 ↓1"));
}

#[test]
fn parse_ahead_behind_synced() {
    let output = "## main...origin/main\n";
    assert_eq!(parse_ahead_behind(output).as_deref(), Some("synced"));
}

#[test]
fn parse_ahead_behind_no_remote() {
    let output = "## feature-branch\n";
    assert_eq!(parse_ahead_behind(output).as_deref(), Some("-"));
}

#[test]
fn snapshot_assembles_fields() {
    let status = "## main...origin/main [ahead 2, behind 1]\n M src/main.rs\n";
    let info = snapshot(
        Some(status.to_string()),
        Some("10\t2\tsrc/main.rs\n".to_string()),
        Some("3\t0\tREADME.md\n".to_string()),
        Some("git@github.com:owner/repo.git\n".to_string()),
        None,
    );
    assert_eq!(info.branch, "main");
    assert_eq!(info.changes, "+13 -2");
    assert_eq!(info.repository, "owner/repo");
    assert_eq!(info.ahead_behind, "↑2 ↓1");
}

#[test]
fn snapshot_falls_back_to_sentinels() {
    let info = snapshot(None, None, None, None, None);
    assert_eq!(info.branch, "-");
    assert_eq!(info.changes, "-");
    assert_eq!(info.repository, "-");
    assert_eq!(info.ahead_behind, "-");
}

#[test]
fn snapshot_repository_from_toplevel() {
    let info = snapshot(None, None, None, None, Some("/home/user/projects/tool\n".to_string()));
    assert_eq!(info.repository, "tool");
}
