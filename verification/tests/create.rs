use rung_cli::create::{
    CreateResult, create_branch_name, check_message_slug, check_new_branch, first_commit_step, after_staging,
    CommitStep, record_created, create_report, create_dry_run_report,
};
use rung_cli::output::MessageKind;
use rung_cli::stack::{Stack, StackBranch};

#[test]
fn test_create_result_fields() {
    let result = CreateResult {
        branch_name: "feature/test".to_string(),
        parent_name: "main".to_string(),
        commit_created: true,
        commit_message: Some("Initial commit".to_string()),
        stack_depth: 2,
    };

    assert_eq!(result.branch_name, "feature/test");
    assert_eq!(result.parent_name, "main");
    assert!(result.commit_created);
    assert_eq!(result.commit_message, Some("Initial commit".to_string()));
    assert_eq!(result.stack_depth, 2);
}

#[test]
fn test_create_result_without_commit() {
    let result = CreateResult {
        branch_name: "feature/no-commit".to_string(),
        parent_name: "develop".to_string(),
        commit_created: false,
        commit_message: None,
        stack_depth: 1,
    };

    assert!(!result.commit_created);
    assert!(result.commit_message.is_none());
}

#[test]
fn test_create_result_deep_stack() {
    let result = CreateResult {
        branch_name: "feature/deep".to_string(),
        parent_name: "feature/level2".to_string(),
        commit_created: false,
        commit_message: None,
        stack_depth: 5,
    };

    assert_eq!(result.stack_depth, 5);
    assert_eq!(result.parent_name, "feature/level2");
}

#[test]
fn test_create_result_debug_impl() {
    let result = CreateResult {
        branch_name: "test".to_string(),
        parent_name: "main".to_string(),
        commit_created: true,
        commit_message: Some("msg".to_string()),
        stack_depth: 1,
    };
    let debug_str = format!("{result:?}");
    assert!(debug_str.contains("test"));
    assert!(debug_str.contains("main"));
}

#[test]
fn test_create_result_root_branch() {
    let result = CreateResult {
        branch_name: "first-branch".to_string(),
        parent_name: "main".to_string(),
        commit_created: true,
        commit_message: Some("Initial work".to_string()),
        stack_depth: 1,
    };

    assert_eq!(result.stack_depth, 1);
    assert!(result.commit_created);
}

#[test]
fn test_create_result_long_commit_message() {
    let long_message = "This is a much longer commit message that spans multiple words and describes the changes in detail for testing purposes";
    let result = CreateResult {
        branch_name: "feature/detailed".to_string(),
        parent_name: "main".to_string(),
        commit_created: true,
        commit_message: Some(long_message.to_string()),
        stack_depth: 1,
    };

    assert_eq!(result.commit_message, Some(long_message.to_string()));
}

#[test]
fn test_create_branch_success() {
    let mut stack = Stack::new();
    let result = record_created(&mut stack, &"feature/test".to_string(), &"main".to_string(), None);
    assert_eq!(result.branch_name, "feature/test");
    assert_eq!(result.parent_name, "main");
    assert!(!result.commit_created);
    assert_eq!(result.stack_depth, 1);
    assert_eq!(stack.branches[0].parent.as_deref(), Some("main"));
}

#[test]
fn test_create_branch_with_commit_when_staged() {
    assert_eq!(first_commit_step(true, false), CommitStep::Commit);
    let mut stack = Stack::new();
    let result = record_created(&mut stack, &"feature/test".to_string(), &"main".to_string(), Some("Add feature".to_string()));
    assert!(result.commit_created);
    assert_eq!(result.commit_message, Some("Add feature".to_string()));
}

#[test]
fn test_create_branch_with_message_clean_repo() {
    assert_eq!(first_commit_step(false, true), CommitStep::Skip);
}

#[test]
fn test_create_branch_with_message_dirty_repo() {
    assert_eq!(first_commit_step(false, false), CommitStep::StageAll);
    assert_eq!(after_staging(true), CommitStep::Commit);
    assert_eq!(after_staging(false), CommitStep::Skip);
}

#[test]
fn branch_name_from_name_or_message() {
    assert_eq!(create_branch_name(Some("feat/x"), Some("ignored".to_string())), Ok("feat/x".to_string()));
    assert_eq!(create_branch_name(None, Some("add-login".to_string())), Ok("add-login".to_string()));
    assert_eq!(
        create_branch_name(None, None),
        Err("Either a branch name or --message must be provided".to_string())
    );
    assert!(check_message_slug(&None).is_ok());
    assert!(check_message_slug(&Some("x".to_string())).is_ok());
    assert_eq!(
        check_message_slug(&Some(String::new())),
        Err("Commit message must contain at least one alphanumeric character".to_string())
    );
    assert_eq!(check_new_branch(&"a".to_string(), true), Err("Branch 'a' already exists".to_string()));
    assert!(check_new_branch(&"a".to_string(), false).is_ok());
}

#[test]
fn create_depth_counts_ancestors_in_stack() {
    let mut stack = Stack::new();
    stack.add_branch(StackBranch::new("a".to_string(), None));
    let result = record_created(&mut stack, &"b".to_string(), &"a".to_string(), None);
    assert_eq!(result.stack_depth, 2);
    let lines = create_report(&result, true, true);
    assert_eq!(lines[0], (MessageKind::Warn, "Working directory is clean - branch created without commit".to_string()));
    assert_eq!(lines[1], (MessageKind::Success, "Created branch 'b' with parent 'a'".to_string()));
    assert_eq!(lines[2], (MessageKind::Info, "Stack depth: 2".to_string()));
}

#[test]
fn dry_run_report_mentions_commit() {
    let lines = create_dry_run_report(&"b".to_string(), &"a".to_string(), Some("msg"), false, true);
    assert_eq!(lines.len(), 2);
    assert_eq!(lines[0].1, "Would create branch 'b' with parent 'a'");
    assert_eq!(lines[1], (MessageKind::Info, "Would create commit with message: msg".to_string()));
    let lines = create_dry_run_report(&"b".to_string(), &"a".to_string(), None, false, true);
    assert_eq!(lines.len(), 1);
}
