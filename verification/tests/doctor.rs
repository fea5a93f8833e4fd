use rung_cli::doctor::{
    Issue, Severity, CheckResult, DiagnosticReport, check_git_state, check_stack_integrity, check_sync_state,
    sync_check_pairs, has_circular_dependency, check_github, ForgeAccess, PrState, summary_line, issue_lines, status_mark,
};
use rung_cli::stack::{Stack, StackBranch};

fn stack_of(items: &[(&str, Option<&str>)]) -> Stack {
    let mut stack = Stack::new();
    for (name, parent) in items {
        stack.add_branch(StackBranch::new(name.to_string(), parent.map(|p| p.to_string())));
    }
    stack
}

fn names(v: &[&str]) -> Vec<String> {
    v.iter().map(|s| s.to_string()).collect()
}

#[test]
fn test_issue_creation() {
    let error = Issue::error("Test error");
    assert_eq!(error.severity, Severity::Error);
    assert_eq!(error.message, "Test error");
    assert!(error.suggestion.is_none());

    let warning = Issue::warning("Test warning").with_suggestion("Fix it");
    assert_eq!(warning.severity, Severity::Warning);
    assert_eq!(warning.message, "Test warning");
    assert_eq!(warning.suggestion, Some("Fix it".to_string()));
}

#[test]
fn test_check_result() {
    let mut result = CheckResult::default();
    assert!(result.is_clean());
    assert!(!result.has_errors());
    assert!(!result.has_warnings());

    result.issues.push(Issue::warning("warn"));
    assert!(!result.is_clean());
    assert!(!result.has_errors());
    assert!(result.has_warnings());

    result.issues.push(Issue::error("err"));
    assert!(result.has_errors());
}

#[test]
fn test_check_result_only_errors() {
    let mut result = CheckResult::default();
    result.issues.push(Issue::error("critical"));
    assert!(result.has_errors());
    assert!(!result.has_warnings());
    assert!(!result.is_clean());
}

#[test]
fn test_diagnostic_report() {
    let mut report = DiagnosticReport::default();
    assert!(report.is_healthy());
    assert_eq!(report.error_count(), 0);
    assert_eq!(report.warning_count(), 0);

    report.git_state.issues.push(Issue::warning("dirty"));
    assert!(!report.is_healthy());
    assert_eq!(report.warning_count(), 1);

    report.stack_integrity.issues.push(Issue::error("missing"));
    assert_eq!(report.error_count(), 1);
    assert_eq!(report.all_issues().len(), 2);
}

#[test]
fn test_diagnostic_report_all_categories() {
    let mut report = DiagnosticReport::default();
    report.git_state.issues.push(Issue::warning("git issue"));
    report.stack_integrity.issues.push(Issue::error("stack issue"));
    report.sync_state.issues.push(Issue::warning("sync issue"));
    report.github.issues.push(Issue::error("github issue"));

    assert_eq!(report.all_issues().len(), 4);
    assert_eq!(report.error_count(), 2);
    assert_eq!(report.warning_count(), 2);
}

#[test]
fn test_issue_builder_pattern() {
    let issue = Issue::error("Problem").with_suggestion("Do this");
    assert_eq!(issue.message, "Problem");
    assert_eq!(issue.suggestion, Some("Do this".to_string()));
    assert_eq!(issue.severity, Severity::Error);
}

#[test]
fn test_issue_warning_with_suggestion() {
    let issue = Issue::warning("Minor").with_suggestion("Consider this");
    assert_eq!(issue.severity, Severity::Warning);
    assert_eq!(issue.suggestion, Some("Consider this".to_string()));
}

#[test]
fn test_check_result_multiple_warnings() {
    let mut result = CheckResult::default();
    result.issues.push(Issue::warning("warn1"));
    result.issues.push(Issue::warning("warn2"));
    result.issues.push(Issue::warning("warn3"));

    assert!(!result.is_clean());
    assert!(result.has_warnings());
    assert!(!result.has_errors());
    assert_eq!(result.issues.len(), 3);
}

#[test]
fn test_check_result_multiple_errors() {
    let mut result = CheckResult::default();
    result.issues.push(Issue::error("err1"));
    result.issues.push(Issue::error("err2"));

    assert!(result.has_errors());
    assert!(!result.has_warnings());
    assert_eq!(result.issues.len(), 2);
}

#[test]
fn test_diagnostic_report_empty() {
    let report = DiagnosticReport::default();
    assert!(report.is_healthy());
    assert_eq!(report.error_count(), 0);
    assert_eq!(report.warning_count(), 0);
    assert!(report.all_issues().is_empty());
}

#[test]
fn test_diagnostic_report_single_category() {
    let mut report = DiagnosticReport::default();
    report.git_state.issues.push(Issue::error("detached head"));

    assert!(!report.is_healthy());
    assert_eq!(report.error_count(), 1);
    assert_eq!(report.warning_count(), 0);
    assert_eq!(report.all_issues().len(), 1);
}

#[test]
fn test_severity_equality() {
    assert_eq!(Severity::Error, Severity::Error);
    assert_eq!(Severity::Warning, Severity::Warning);
    assert_ne!(Severity::Error, Severity::Warning);
}

#[test]
fn test_issue_clone() {
    let original = Issue::error("test").with_suggestion("fix");
    let cloned = original.clone();

    assert_eq!(original.message, cloned.message);
    assert_eq!(original.severity, cloned.severity);
    assert_eq!(original.suggestion, cloned.suggestion);
}

#[test]
fn test_check_result_mixed_issues() {
    let mut result = CheckResult::default();
    result.issues.push(Issue::error("error 1"));
    result.issues.push(Issue::warning("warning 1"));
    result.issues.push(Issue::error("error 2"));
    result.issues.push(Issue::warning("warning 2"));

    assert!(result.has_errors());
    assert!(result.has_warnings());
    assert!(!result.is_clean());
    assert_eq!(result.issues.len(), 4);
}

#[test]
fn test_check_git_state_clean() {
    let result = check_git_state(Some(true), true, false);
    assert!(result.is_clean());
}

#[test]
fn test_check_git_state_dirty_working_directory() {
    let result = check_git_state(Some(false), true, false);
    assert!(result.has_warnings());
    assert!(result.issues[0].message.contains("uncommitted changes"));
}

#[test]
fn test_check_git_state_rebasing() {
    let result = check_git_state(Some(true), true, true);
    assert!(result.has_errors());
    assert!(result.issues.iter().any(|i| i.message.contains("Rebase in progress")));
}

#[test]
fn test_check_stack_integrity_empty_stack() {
    let result = check_stack_integrity(&Stack::new(), &vec![]);
    assert!(result.is_clean());
}

#[test]
fn test_check_stack_integrity_branch_not_in_git() {
    let stack = stack_of(&[("feature/missing", None)]);
    let result = check_stack_integrity(&stack, &vec![]);
    assert!(result.has_warnings());
    assert!(result.issues[0].message.contains("not in git"));
}

#[test]
fn test_check_stack_integrity_missing_parent() {
    let stack = stack_of(&[("feature/child", Some("feature/parent"))]);
    let result = check_stack_integrity(&stack, &names(&["feature/child"]));
    assert!(result.has_errors());
    assert!(result.issues.iter().any(|i| i.message.contains("missing parent")));
}

#[test]
fn test_check_stack_integrity_valid_stack() {
    let stack = stack_of(&[("feature/a", Some("main")), ("feature/b", Some("feature/a"))]);
    let result = check_stack_integrity(&stack, &names(&["main", "feature/a", "feature/b"]));
    assert!(result.is_clean());
}

#[test]
fn test_check_sync_state_clean() {
    let stack = stack_of(&[("feature/a", Some("main"))]);
    let pairs = sync_check_pairs(&stack, &names(&["main", "feature/a"]), &"main".to_string());
    assert_eq!(pairs, vec![("feature/a".to_string(), "main".to_string())]);
    let behind = vec![false; pairs.len()];
    let result = check_sync_state(false, &behind);
    assert!(!result.has_errors());
    assert!(result.is_clean());
}

#[test]
fn test_check_sync_state_sync_in_progress() {
    let result = check_sync_state(true, &vec![]);
    assert!(result.has_warnings());
    assert!(result.issues[0].message.contains("Sync operation in progress"));
}

#[test]
fn test_run_diagnostics() {
    let git = check_git_state(Some(true), true, false);
    let stack = check_stack_integrity(&Stack::new(), &vec![]);
    assert!(git.is_clean());
    assert!(stack.is_clean());
}

#[test]
fn test_check_git_state_multiple_issues() {
    let result = check_git_state(Some(false), true, true);
    assert!(result.has_errors());
    assert!(result.has_warnings());
    assert!(result.issues.len() >= 2);
}

#[test]
fn test_check_stack_integrity_parent_in_stack_not_git() {
    let stack = stack_of(&[("feature/parent", None), ("feature/child", Some("feature/parent"))]);
    let result = check_stack_integrity(&stack, &names(&["feature/child"]));
    assert!(result.has_warnings());
    assert!(result
        .issues
        .iter()
        .any(|i| i.message.contains("feature/parent") && i.message.contains("not in git")));
}

#[test]
fn sync_state_counts_branches_behind() {
    let result = check_sync_state(false, &vec![true, false, true]);
    assert_eq!(result.issues.len(), 1);
    assert_eq!(result.issues[0].message, "2 branch(es) behind their parent");
    assert_eq!(result.issues[0].suggestion.as_deref(), Some("Run `rung sync` to rebase"));
}

#[test]
fn git_state_detached_and_unknown_cleanliness() {
    let result = check_git_state(None, false, false);
    assert_eq!(result.issues.len(), 2);
    assert_eq!(result.issues[0].severity, Severity::Warning);
    assert_eq!(result.issues[1].message, "HEAD is detached (not on a branch)");
}

#[test]
fn circular_dependency_found() {
    let stack = stack_of(&[("a", Some("b")), ("b", Some("a")), ("c", Some("main"))]);
    assert!(has_circular_dependency(&stack, &"a".to_string()));
    assert!(!has_circular_dependency(&stack, &"c".to_string()));
    let result = check_stack_integrity(&stack, &names(&["a", "b", "c", "main"]));
    assert!(result.issues.iter().any(|i| i.message == "Circular dependency detected involving 'a'"));
}

#[test]
fn github_check_variants() {
    let stack = stack_of(&[("a", Some("main"))]);
    let r = check_github(ForgeAccess::AuthFailed, &stack, &vec![]);
    assert!(r.has_errors());
    assert_eq!(r.issues[0].message, "GitHub authentication failed");
    let r = check_github(ForgeAccess::NoOrigin, &stack, &vec![]);
    assert!(r.has_warnings());
    let _ = PrState::Merged;
}

#[test]
fn summary_counts_issues() {
    let mut report = DiagnosticReport::default();
    assert_eq!(summary_line(&report), (None, "No issues found!".to_string()));
    report.git_state.issues.push(Issue::warning("w"));
    report.github.issues.push(Issue::error("e"));
    assert_eq!(
        summary_line(&report),
        (Some(Severity::Error), "Found 2 issue(s) (1 error(s), 1 warning(s))".to_string())
    );
}

#[test]
fn issue_lines_plain() {
    colored::control::set_override(false);
    let issue = Issue::error("boom").with_suggestion("fix it");
    assert_eq!(issue_lines(&issue), vec!["  ✗ boom".to_string(), "    → fix it".to_string()]);
    let mut r = CheckResult::default();
    assert_eq!(status_mark(&r), " ✓");
    r.issues.push(Issue::warning("w"));
    assert_eq!(status_mark(&r), " ⚠");
}

#[test]
fn integrity_clean_when_branches_and_parents_exist() {
    let mut stack = Stack::new();
    stack.add_branch(StackBranch::new("a".to_string(), Some("main".to_string())));
    stack.add_branch(StackBranch::new("b".to_string(), Some("a".to_string())));
    // "a" is in the stack but not in git: b's parent is still found.
    let result = check_stack_integrity(&stack, &vec!["main".to_string(), "b".to_string()]);
    assert_eq!(result.issues.len(), 1);
    let result = check_stack_integrity(&stack, &vec!["main".to_string(), "a".to_string(), "b".to_string()]);
    assert!(result.is_clean());
}
