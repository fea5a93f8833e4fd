use rung_cli::split::{
    CommitInfo, SplitAnalysis, SplitResult, SplitConfig, SplitPoint, SplitOptions, split_parent, commit_info,
    split_analysis, check_splittable, check_split_blockers, split_dry_run_lines, suggest_branch_name,
    suggestion_from_lowercase, apply_split_to_stack, split_target, require_split_in_progress,
};
use rung_cli::stack::{Stack, StackBranch};

fn s(x: &str) -> String {
    x.to_string()
}

fn parent_of<'a>(stack: &'a Stack, name: &str) -> Option<&'a str> {
    stack.branches.iter().find(|b| b.name == name).and_then(|b| b.parent.as_deref())
}

#[test]
fn test_commit_info_creation() {
    let info = CommitInfo { oid: "abc123def456".to_string(), short_sha: "abc123de".to_string(), summary: "Test commit".to_string() };
    assert_eq!(info.short_sha, "abc123de");
    assert_eq!(info.summary, "Test commit");
}

#[test]
fn test_split_config_creation() {
    let config = SplitConfig { source_branch: "feature".to_string(), parent_branch: "main".to_string(), split_points: vec![] };
    assert_eq!(config.source_branch, "feature");
    assert!(config.split_points.is_empty());
}

#[test]
fn test_split_analysis_creation() {
    let analysis = SplitAnalysis { source_branch: "feature".to_string(), parent_branch: "main".to_string(), commits: vec![] };
    assert_eq!(analysis.parent_branch, "main");
    assert!(analysis.commits.is_empty());
}

#[test]
fn test_split_result_creation() {
    let result = SplitResult { source_branch: "feature".to_string(), branches_created: vec!["feature-1".to_string(), "feature-2".to_string()] };
    assert_eq!(result.branches_created.len(), 2);
}

#[test]
fn test_suggest_branch_name_from_summary() {
    let name = suggest_branch_name("feat: add user auth", "feature", 0);
    assert_eq!(name, "feat-add-user-auth");

    let name = suggest_branch_name("fix: resolve the complex issue with multiple components", "feature", 0);
    assert_eq!(name, "fix-resolve-the-complex");

    let name = suggest_branch_name("feat(api): add endpoint!", "feature", 0);
    assert_eq!(name, "feat-api-add-endpoint");
}

#[test]
fn test_suggest_branch_name_fallback() {
    let name = suggest_branch_name("", "feature", 0);
    assert_eq!(name, "feature-part-1");

    let name = suggest_branch_name("", "my-branch", 2);
    assert_eq!(name, "my-branch-part-3");

    let name = suggest_branch_name("!!!", "feature", 1);
    assert_eq!(name, "feature-part-2");
}

#[test]
fn suggestion_keeps_words_after_lowercasing() {
    assert_eq!(suggestion_from_lowercase(s("add-login"), "x", 0), "add-login");
    assert_eq!(suggestion_from_lowercase(String::new(), "x", 9), "x-part-10");
    assert_eq!(suggest_branch_name("Add LOGIN Page", "f", 0), "add-login-page");
}

#[test]
fn test_analyze_returns_commits_oldest_first() {
    let newest_first = vec![
        commit_info(s("3333333333"), Some(s("commit three"))),
        commit_info(s("2222222222"), Some(s("commit two"))),
        commit_info(s("1111111111"), Some(s("commit one"))),
    ];
    let analysis = split_analysis(&s("feature"), s("main"), newest_first);
    assert_eq!(analysis.source_branch, "feature");
    assert_eq!(analysis.parent_branch, "main");
    assert_eq!(analysis.commits.len(), 3);
    assert_eq!(analysis.commits[0].summary, "commit one");
    assert_eq!(analysis.commits[2].summary, "commit three");
    assert!(analysis.commits[0].oid.starts_with(&analysis.commits[0].short_sha));
    assert_eq!(analysis.commits[0].short_sha, "11111111");
}

#[test]
fn test_analyze_root_branch_errors() {
    let mut stack = Stack::new();
    stack.add_branch(StackBranch::new(s("feature"), None));
    assert_eq!(split_parent(&stack, &s("feature")), Err(s("Cannot split a root branch (no parent)")));
}

#[test]
fn split_test_analyze_branch_not_found() {
    let stack = Stack::new();
    assert!(split_parent(&stack, &s("does-not-exist")).is_err());
}

fn point(sha: &str, msg: &str, name: &str) -> SplitPoint {
    SplitPoint { commit_sha: s(sha), message: s(msg), branch_name: s(name) }
}

#[test]
fn test_execute_split_creates_branches() {
    let mut stack = Stack::new();
    stack.add_branch(StackBranch::new(s("feature"), Some(s("main"))));
    let config = SplitConfig {
        source_branch: s("feature"),
        parent_branch: s("main"),
        split_points: vec![point("aaa", "commit one", "part-one"), point("bbb", "commit two", "part-two")],
    };
    let created = apply_split_to_stack(&mut stack, &config).unwrap();
    assert_eq!(created, vec![s("part-one"), s("part-two")]);
    assert_eq!(parent_of(&stack, "part-one"), Some("main"));
    assert_eq!(parent_of(&stack, "part-two"), Some("part-one"));
    assert_eq!(parent_of(&stack, "feature"), Some("part-two"));
}

#[test]
fn test_execute_split_no_points_is_noop() {
    let mut stack = Stack::new();
    stack.add_branch(StackBranch::new(s("feature"), Some(s("main"))));
    let config = SplitConfig { source_branch: s("feature"), parent_branch: s("main"), split_points: vec![] };
    let created = apply_split_to_stack(&mut stack, &config).unwrap();
    assert!(created.is_empty());
    assert_eq!(parent_of(&stack, "feature"), Some("main"));
}

#[test]
fn test_abort_no_split_in_progress() {
    assert!(require_split_in_progress(false).is_err());
    assert!(require_split_in_progress(true).is_ok());
}

#[test]
fn split_checks() {
    let mut analysis = SplitAnalysis { source_branch: s("f"), parent_branch: s("main"), commits: vec![] };
    assert_eq!(check_splittable(&analysis, &s("f")), Err(s("No commits to split - branch is already at parent")));
    analysis.commits.push(commit_info(s("abcdef0123"), None));
    assert_eq!(analysis.commits[0].summary, "(no message)");
    assert_eq!(check_splittable(&analysis, &s("f")), Err(s("Only one commit on branch - nothing to split")));
    analysis.commits.push(commit_info(s("abc"), Some(s("two"))));
    assert_eq!(analysis.commits[1].short_sha, "abc");
    assert_eq!(check_splittable(&analysis, &s("f")), Err(s("Split not yet implemented for branch 'f' (2 commits)")));
    let lines = split_dry_run_lines(&analysis, &s("f"));
    assert_eq!(lines[0], "Would split 'f' (2 commits) into multiple branches");
    assert_eq!(lines[3], "  abc two");
    assert_eq!(
        check_split_blockers(false, true, true),
        Err(s("A sync is in progress. Complete or abort it first."))
    );
    let opts = SplitOptions { dry_run: false, continue_: false, abort: false, json: false, branch: None };
    assert_eq!(split_target(&opts, &s("cur")), "cur");
}

#[test]
fn suggestion_falls_back_only_without_letters_or_digits() {
    assert_eq!(suggest_branch_name("\u{3000}-- ?? \u{2028}", "feature", 3), "feature-part-4");
    assert_eq!(suggest_branch_name("a\u{3000}b", "feature", 0), "a-b");
    assert_eq!(suggest_branch_name("Ünïcode wörds", "feature", 0), "ünïcode-wörds");
}
