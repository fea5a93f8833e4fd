use rung_cli::submit::{keeps_existing_pr, submit_outcome};
use rung_cli::submit::{
    PlannedBranchAction, SubmitPlan, BranchSubmitResult, SubmitAction, SubmitConfig, STACK_COMMENT_MARKER,
    generate_title, pr_title_and_body, build_branch_chain, generate_stack_comment, dry_run_summary, submit_summary,
    validate_sync_state, count_results, record_pr, create_plan, dry_run_output, result_line, diverged_push_warning,
};
use rung_cli::output::MessageKind;
use rung_cli::stack::{Stack, StackBranch};

fn s(x: &str) -> String {
    x.to_string()
}

fn stack_of(items: &[(&str, Option<&str>, Option<u64>)]) -> Stack {
    let mut stack = Stack::new();
    for (name, parent, pr) in items {
        let mut b = StackBranch::new(name.to_string(), parent.map(|p| p.to_string()));
        b.pr = *pr;
        stack.add_branch(b);
    }
    stack
}

#[test]
fn test_generate_title() {
    assert_eq!(generate_title("feature/add-auth"), "Add Auth");
    assert_eq!(generate_title("fix_bug_123"), "Fix Bug 123");
    assert_eq!(generate_title("simple"), "Simple");
}

#[test]
fn test_generate_title_edge_cases() {
    assert_eq!(generate_title("user/feature/add-auth"), "Add Auth");
    assert_eq!(generate_title("add_user_auth"), "Add User Auth");
    assert_eq!(generate_title("fix-bug_report"), "Fix Bug Report");
    assert_eq!(generate_title(""), "");
}

#[test]
fn test_submit_plan_counts() {
    let plan = SubmitPlan {
        actions: vec![
            PlannedBranchAction::Create { branch: "a".into(), title: "A".into(), body: String::new(), base: "main".into(), draft: false },
            PlannedBranchAction::Update { branch: "b".into(), pr_number: 1, pr_url: "url".into(), base: "main".into() },
            PlannedBranchAction::Create { branch: "c".into(), title: "C".into(), body: String::new(), base: "a".into(), draft: true },
        ],
    };

    assert_eq!(plan.count_creates(), 2);
    assert_eq!(plan.count_updates(), 1);
    assert!(!plan.is_empty());
}

#[test]
fn test_empty_plan() {
    let plan = SubmitPlan { actions: vec![] };
    assert!(plan.is_empty());
    assert_eq!(plan.count_creates(), 0);
    assert_eq!(plan.count_updates(), 0);
}

#[test]
fn test_submit_plan_empty_const() {
    let plan = SubmitPlan::empty();
    assert!(plan.is_empty());
    assert_eq!(plan.actions.len(), 0);
}

#[test]
fn test_planned_branch_action_create() {
    let action = PlannedBranchAction::Create {
        branch: "feature/test".into(),
        title: "Test Feature".into(),
        body: "Description".into(),
        base: "main".into(),
        draft: true,
    };
    assert!(matches!(action, PlannedBranchAction::Create { draft: true, .. }));
}

#[test]
fn test_planned_branch_action_update() {
    let action = PlannedBranchAction::Update {
        branch: "feature/test".into(),
        pr_number: 123,
        pr_url: "https://github.com/owner/repo/pull/123".into(),
        base: "main".into(),
    };
    assert!(matches!(action, PlannedBranchAction::Update { pr_number: 123, .. }));
}

#[test]
fn test_generate_title_various_formats() {
    assert_eq!(generate_title("add-feature"), "Add Feature");
    assert_eq!(generate_title("AddNew-feature"), "AddNew Feature");
    assert_eq!(generate_title("fix-issue-42"), "Fix Issue 42");
    assert_eq!(generate_title("hotfix"), "Hotfix");
    assert_eq!(generate_title("user/john/feature/auth"), "Auth");
}

#[test]
fn test_build_branch_chain_single_branch() {
    let stack = stack_of(&[("feature-1", Some("main"), None)]);
    let chain = build_branch_chain(&stack, &s("feature-1"));
    assert_eq!(chain, vec!["feature-1"]);
}

#[test]
fn test_build_branch_chain_with_parent() {
    let stack = stack_of(&[("feature-1", Some("main"), None), ("feature-2", Some("feature-1"), None)]);
    let chain = build_branch_chain(&stack, &s("feature-2"));
    assert!(chain.contains(&"feature-1".to_string()));
    assert!(chain.contains(&"feature-2".to_string()));
}

#[test]
fn test_build_branch_chain_complex() {
    let stack = stack_of(&[("a", Some("main"), None), ("b", Some("a"), None), ("c", Some("b"), None)]);
    let chain = build_branch_chain(&stack, &s("c"));
    assert!(chain.contains(&"a".to_string()));
    assert!(chain.contains(&"b".to_string()));
    assert!(chain.contains(&"c".to_string()));
}

#[test]
fn test_generate_stack_comment_single_branch() {
    let stack = stack_of(&[("feature-1", Some("main"), Some(42))]);
    let comment = generate_stack_comment(&stack, 42, &s("main"));
    assert!(comment.contains(STACK_COMMENT_MARKER));
    assert!(comment.contains("#42"));
    assert!(comment.contains("main"));
    assert!(comment.contains("rung"));
}

#[test]
fn test_generate_stack_comment_with_chain() {
    let stack = stack_of(&[("feature-1", Some("main"), Some(10)), ("feature-2", Some("feature-1"), Some(20))]);
    let comment = generate_stack_comment(&stack, 20, &s("main"));
    assert!(comment.contains("#10"));
    assert!(comment.contains("#20"));
    assert!(comment.contains("👈"));
}

#[test]
fn test_submit_plan_all_updates() {
    let plan = SubmitPlan {
        actions: vec![
            PlannedBranchAction::Update { branch: "a".into(), pr_number: 1, pr_url: "url1".into(), base: "main".into() },
            PlannedBranchAction::Update { branch: "b".into(), pr_number: 2, pr_url: "url2".into(), base: "a".into() },
        ],
    };

    assert_eq!(plan.count_creates(), 0);
    assert_eq!(plan.count_updates(), 2);
    assert!(!plan.is_empty());
}

#[test]
fn test_submit_plan_all_creates() {
    let plan = SubmitPlan {
        actions: vec![
            PlannedBranchAction::Create { branch: "a".into(), title: "A".into(), body: String::new(), base: "main".into(), draft: false },
            PlannedBranchAction::Create { branch: "b".into(), title: "B".into(), body: String::new(), base: "a".into(), draft: false },
        ],
    };

    assert_eq!(plan.count_creates(), 2);
    assert_eq!(plan.count_updates(), 0);
}

#[test]
fn test_stack_comment_marker_constant() {
    assert!(STACK_COMMENT_MARKER.starts_with("<!--"));
    assert!(STACK_COMMENT_MARKER.ends_with("-->"));
    assert!(STACK_COMMENT_MARKER.contains("rung"));
}

#[test]
fn test_validate_sync_state_up_to_date() {
    assert!(validate_sync_state(&s("main"), &vec![]).is_ok());
}

#[test]
fn test_validate_sync_state_empty_stack() {
    assert!(validate_sync_state(&s("main"), &vec![]).is_ok());
}

#[test]
fn test_validate_sync_state_fetch_error_continues() {
    assert!(validate_sync_state(&s("nonexistent-branch"), &vec![]).is_ok());
}

#[test]
fn test_validate_sync_state_needs_sync() {
    let err = validate_sync_state(&s("main"), &vec![s("feature-1")]).unwrap_err();
    assert!(err.contains("out of sync"));
    assert!(err.contains("feature-1"));
    assert_eq!(
        err,
        "Stack is out of sync with main. 1 branch(es) need rebasing: feature-1\n\n→ Run `rung sync` to update the stack\n→ Use `--force` to push without syncing (may create conflicts)"
    );
}

#[test]
fn title_and_body_from_message() {
    let (t, b) = pr_title_and_body(&Some(s("Add login\n\n\nDetails here\nMore  \n")), "feature/login");
    assert_eq!(t, "Add login");
    assert_eq!(b, "Details here\nMore");
    let (t, b) = pr_title_and_body(&None, "feature/add-login");
    assert_eq!(t, "Add Login");
    assert_eq!(b, "");
    let (t, _) = pr_title_and_body(&Some(s("   \nbody")), "fix_x");
    assert_eq!(t, "Fix X");
}

#[test]
fn summaries() {
    assert_eq!(submit_summary(0, 0), (false, s("No changes to submit")));
    assert_eq!(submit_summary(2, 1), (true, s("Done! PRs: 2 created, 1 updated")));
    assert_eq!(submit_summary(0, 3), (true, s("Done! PRs: 3 updated")));
    assert_eq!(dry_run_summary(&SubmitPlan::empty(), &s("main")), (false, s("No branches to submit")));
    let plan = SubmitPlan {
        actions: vec![
            PlannedBranchAction::Update { branch: "a".into(), pr_number: 1, pr_url: "u".into(), base: "main".into() },
            PlannedBranchAction::Create { branch: "b".into(), title: "B".into(), body: String::new(), base: "".into(), draft: false },
        ],
    };
    assert_eq!(
        dry_run_summary(&plan, &s("main")).1,
        "→ Would push 1 branches:\n  - a (PR #1)\n\n→ Would create 1 new PRs for branches:\n  - b → main\n\n(dry run - no changes made)"
    );
}

#[test]
fn results_are_counted_and_recorded() {
    let results = vec![
        BranchSubmitResult { branch: s("a"), pr_number: 1, pr_url: s("u1"), action: SubmitAction::Created },
        BranchSubmitResult { branch: s("b"), pr_number: 2, pr_url: s("u2"), action: SubmitAction::Updated },
        BranchSubmitResult { branch: s("c"), pr_number: 3, pr_url: s("u3"), action: SubmitAction::Created },
    ];
    assert_eq!(count_results(&results), (2, 1));
    let mut stack = stack_of(&[("a", Some("main"), None), ("b", Some("a"), Some(9))]);
    record_pr(&mut stack, &s("a"), 1, false);
    record_pr(&mut stack, &s("b"), 2, true);
    assert_eq!(stack.branches[0].pr, Some(1));
    assert_eq!(stack.branches[1].pr, Some(9));
}

#[test]
fn plan_creates_and_updates() {
    let stack = stack_of(&[("a", Some("main"), Some(5)), ("b", Some("a"), None)]);
    let config = SubmitConfig { draft: true, custom_title: None, current_branch: Some(s("b")), default_branch: s("main") };
    let plan = create_plan(
        &stack,
        &config,
        &s("o"),
        &s("r"),
        &vec![None, Some(s("Add b\n\nBody"))],
        &vec![None, None],
    );
    assert_eq!(plan.actions.len(), 2);
    assert!(matches!(&plan.actions[0], PlannedBranchAction::Update { pr_number: 5, base, .. } if base == "main"));
    match &plan.actions[1] {
        PlannedBranchAction::Create { branch, title, body, base, draft } => {
            assert_eq!(branch, "b");
            assert_eq!(title, "Add b");
            assert_eq!(body, "Body");
            assert_eq!(base, "a");
            assert!(*draft);
        }
        _ => panic!("expected a create"),
    }
}

#[test]
fn dry_run_report_lists_planned_actions() {
    let plan = SubmitPlan {
        actions: vec![
            PlannedBranchAction::Create { branch: s("a"), title: s("A"), body: String::new(), base: s("main"), draft: false },
            PlannedBranchAction::Update { branch: s("b"), pr_number: 7, pr_url: s("https://x/7"), base: s("a") },
        ],
    };
    let out = dry_run_output(&plan);
    assert_eq!(out.prs_would_create, 1);
    assert_eq!(out.prs_would_update, 1);
    assert!(out.dry_run);
    assert_eq!(out.branches.len(), 2);
    assert_eq!(out.branches[0].branch, "a");
    assert_eq!(out.branches[0].target_base, Some(s("main")));
    assert_eq!(out.branches[0].pr_number, None);
    assert_eq!(out.branches[0].action, SubmitAction::Created);
    assert_eq!(out.branches[1].pr_number, Some(7));
    assert_eq!(out.branches[1].pr_url, Some(s("https://x/7")));
    assert_eq!(out.branches[1].target_base, None);
    assert_eq!(out.branches[1].action, SubmitAction::Updated);
    let empty = dry_run_output(&SubmitPlan::empty());
    assert_eq!(empty.prs_would_create, 0);
    assert!(empty.branches.is_empty());
}

#[test]
fn progress_lines_of_results() {
    let created = BranchSubmitResult { branch: s("a"), pr_number: 12, pr_url: s("https://x/12"), action: SubmitAction::Created };
    let updated = BranchSubmitResult { branch: s("b"), pr_number: 3, pr_url: s("https://x/3"), action: SubmitAction::Updated };
    assert_eq!(result_line(&created), (MessageKind::Success, s("  Created PR #12: https://x/12")));
    assert_eq!(result_line(&updated), (MessageKind::Info, s("  Updated PR #3")));
}

#[test]
fn diverged_branch_warning_before_push() {
    assert!(diverged_push_warning(&s("feat"), 2, 1, true, false).is_empty());
    assert!(diverged_push_warning(&s("feat"), 2, 1, false, true).is_empty());
    assert_eq!(
        diverged_push_warning(&s("feat"), 2, 1, false, false),
        vec![
            (MessageKind::Warn, s("feat has diverged from remote (2 ahead, 1 behind)")),
            (MessageKind::Detail, s("  Use --force to safely update (uses --force-with-lease)")),
        ]
    );
}

fn config(draft: bool) -> SubmitConfig {
    SubmitConfig { draft, custom_title: None, current_branch: None, default_branch: s("main") }
}

#[test]
fn test_create_plan_empty_stack() {
    let stack = Stack::new();
    let plan = create_plan(&stack, &config(false), &s("owner"), &s("repo"), &vec![], &vec![]);
    assert!(plan.is_empty());
}

#[test]
fn test_create_plan_creates_new_prs() {
    let stack = stack_of(&[("feature/a", None, None)]);
    let plan = create_plan(&stack, &config(false), &s("owner"), &s("repo"), &vec![Some(s("Test commit message"))], &vec![None]);
    assert_eq!(plan.count_creates(), 1);
    assert_eq!(plan.count_updates(), 0);
}

#[test]
fn test_create_plan_updates_existing_prs() {
    let stack = stack_of(&[("feature/a", None, Some(42))]);
    let plan = create_plan(&stack, &config(false), &s("owner"), &s("repo"), &vec![Some(s("Test commit message"))], &vec![None]);
    assert_eq!(plan.count_creates(), 0);
    assert_eq!(plan.count_updates(), 1);
    match &plan.actions[0] {
        PlannedBranchAction::Update { pr_url, base, .. } => {
            assert_eq!(pr_url, "https://github.com/owner/repo/pull/42");
            assert_eq!(base, "main");
        }
        _ => panic!("Expected Update action"),
    }
}

#[test]
fn test_create_plan_with_draft() {
    let stack = stack_of(&[("feature/a", None, None)]);
    let plan = create_plan(&stack, &config(true), &s("owner"), &s("repo"), &vec![Some(s("Test commit message"))], &vec![None]);
    assert_eq!(plan.count_creates(), 1);
    if let PlannedBranchAction::Create { draft, .. } = &plan.actions[0] {
        assert!(draft);
    } else {
        panic!("Expected Create action");
    }
}

#[test]
fn test_get_pr_title_and_body() {
    let (title, body) = pr_title_and_body(&Some(s("Test commit message")), "feature/test");
    assert_eq!(title, "Test commit message");
    assert!(body.is_empty());
}

#[test]
fn plan_uses_pull_request_found_on_forge_and_custom_title() {
    let stack = stack_of(&[("feature/a", None, None), ("feature/b", Some("feature/a"), None)]);
    let cfg = SubmitConfig {
        draft: false,
        custom_title: Some(s("Custom")),
        current_branch: Some(s("feature/b")),
        default_branch: s("main"),
    };
    let plan = create_plan(
        &stack,
        &cfg,
        &s("o"),
        &s("r"),
        &vec![None, None],
        &vec![Some((77, s("https://x/77"))), None],
    );
    assert!(matches!(&plan.actions[0], PlannedBranchAction::Update { pr_number: 77, pr_url, .. } if pr_url == "https://x/77"));
    assert!(matches!(&plan.actions[1], PlannedBranchAction::Create { title, base, .. } if title == "Custom" && base == "feature/a"));
}

#[test]
fn outcome_of_each_planned_action() {
    let update = PlannedBranchAction::Update { branch: s("a"), pr_number: 5, pr_url: s("u5"), base: s("main") };
    let create = PlannedBranchAction::Create { branch: s("b"), title: s("B"), body: String::new(), base: s("a"), draft: false };
    let r = submit_outcome(&update, None, None);
    assert_eq!((r.branch.as_str(), r.pr_number, r.pr_url.as_str(), r.action), ("a", 5, "u5", SubmitAction::Updated));
    let r = submit_outcome(&create, Some((8, s("u8"))), None);
    assert_eq!((r.branch.as_str(), r.pr_number, r.pr_url.as_str(), r.action), ("b", 8, "u8", SubmitAction::Updated));
    let r = submit_outcome(&create, None, Some((9, s("u9"))));
    assert_eq!((r.branch.as_str(), r.pr_number, r.pr_url.as_str(), r.action), ("b", 9, "u9", SubmitAction::Created));
    assert!(keeps_existing_pr(&update));
    assert!(!keeps_existing_pr(&create));
}

#[test]
fn chain_after_current_is_breadth_first_in_stack_order() {
    let stack = stack_of(&[
        ("a", Some("main"), None),
        ("c2", Some("b"), None),
        ("b", Some("a"), None),
        ("d", Some("c1"), None),
        ("c1", Some("b"), None),
        ("e", Some("a"), None),
    ]);
    let chain = build_branch_chain(&stack, &s("a"));
    assert_eq!(chain, vec![s("a"), s("b"), s("e"), s("c2"), s("c1"), s("d")]);
}
