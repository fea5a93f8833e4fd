use rung_cli::log::{CommitInfo, LogResult, LogOutput, check_stack_not_empty, log_parent, commit_entry, commit_lines, run};
use rung_cli::stack::{Stack, StackBranch};

#[test]
fn test_log_result_empty_commits() {
    let result = LogResult { commits: vec![], branch: "empty-branch".to_string(), parent: "main".to_string() };

    assert!(result.commits.is_empty());
    assert_eq!(result.branch, "empty-branch");
}

#[test]
fn test_commit_info_clone() {
    let info = CommitInfo { hash: "abc1234".to_string(), message: "Test".to_string(), author: "Author".to_string() };
    let cloned = info.clone();
    assert_eq!(info.hash, cloned.hash);
    assert_eq!(info.message, cloned.message);
}

#[test]
fn commit_entry_shortens_and_trims() {
    let c = commit_entry(&"0123456789abcdef".to_string(), Some("  Fix bug \n".to_string()), None);
    assert_eq!(c.hash, "0123456");
    assert_eq!(c.message, "Fix bug");
    assert_eq!(c.author, "unknown");
    let c = commit_entry(&"abc".to_string(), None, Some("Ann".to_string()));
    assert_eq!(c.hash, "abc");
    assert_eq!(c.message, "");
    assert_eq!(c.author, "Ann");
}

#[test]
fn commit_lines_pad_columns() {
    let commits = vec![CommitInfo { hash: "abc1234".to_string(), message: "Fix".to_string(), author: "Ann".to_string() }];
    let lines = commit_lines(&commits);
    assert_eq!(lines, vec![format!("{:<10} {:<25}     {}", "abc1234", "Fix", "Ann")]);
}

#[test]
fn log_run_decisions() {
    let empty = LogResult { commits: vec![], branch: "b".to_string(), parent: "main".to_string() };
    match run(false, &empty) {
        LogOutput::Warning(m) => assert_eq!(m, "Current branch has no commits"),
        _ => panic!("expected a warning"),
    }
    assert!(matches!(run(true, &empty), LogOutput::Json));
    let one = LogResult {
        commits: vec![CommitInfo { hash: "h".to_string(), message: "m".to_string(), author: "a".to_string() }],
        branch: "b".to_string(),
        parent: "main".to_string(),
    };
    assert!(matches!(run(false, &one), LogOutput::Lines(v) if v.len() == 1));
}

#[test]
fn log_parent_errors() {
    let mut stack = Stack::new();
    assert_eq!(
        check_stack_not_empty(&stack),
        Err("No branches in stack. Use `rung create <name>` to add one.".to_string())
    );
    stack.add_branch(StackBranch::new("root".to_string(), None));
    stack.add_branch(StackBranch::new("child".to_string(), Some("root".to_string())));
    assert!(check_stack_not_empty(&stack).is_ok());
    assert_eq!(log_parent(&stack, &"child".to_string()), Ok("root".to_string()));
    assert_eq!(log_parent(&stack, &"root".to_string()), Err("Branch 'root' has no parent branch".to_string()));
    assert_eq!(log_parent(&stack, &"x".to_string()), Err("Branch 'x' is not in stack".to_string()));
}
