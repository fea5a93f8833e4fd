use rung_cli::restack::{
    RestackError, RestackConfig, DivergenceInfo, RestackPlan, RestackResult, RestackCheck, RestackState, RemoteDivergence,
    RestackStep, RebaseOutcome, RestackOptions, RestackMode, RestackDecision, check_restack, rebase_list,
    check_divergence, unchanged_plan, plan_restack, start_restack, apply_without_rebase, next_restack_step,
    record_rebase, finalize_restack, returns_to_original, aborted_result, require_restack_in_progress, check_not_stale,
    restack_mode, check_no_restack, parent_options, parent_from_selection, decide_restack, already_based_message,
    topology_messages, dry_run_messages, diverged_messages, start_message, done_message, conflict_lines,
};
use rung_cli::output::MessageKind;
use rung_cli::stack::{Stack, StackBranch};

fn stack_of(items: &[(&str, Option<&str>, Option<u64>)]) -> Stack {
    let mut stack = Stack::new();
    for (name, parent, pr) in items {
        let mut b = StackBranch::new(name.to_string(), parent.map(|p| p.to_string()));
        b.pr = *pr;
        stack.add_branch(b);
    }
    stack
}

fn s(x: &str) -> String {
    x.to_string()
}

fn config(target: &str, parent: &str, children: bool) -> RestackConfig {
    RestackConfig { target_branch: s(target), new_parent: s(parent), include_children: children }
}

fn parent_of<'a>(stack: &'a Stack, name: &str) -> Option<&'a str> {
    stack.branches.iter().find(|b| b.name == name).and_then(|b| b.parent.as_deref())
}

fn message(e: &RestackError) -> String {
    e.message()
}

#[test]
fn test_divergence_info_clone() {
    let info = DivergenceInfo { branch: "test".to_string(), ahead: 1, behind: 2 };
    let cloned = info.clone();
    assert_eq!(info.branch, cloned.branch);
    assert_eq!(info.ahead, cloned.ahead);
    assert_eq!(info.behind, cloned.behind);
}

#[test]
fn test_restack_config_creation() {
    let config = RestackConfig { target_branch: "feature/child".to_string(), new_parent: "main".to_string(), include_children: true };
    assert_eq!(config.target_branch, "feature/child");
    assert_eq!(config.new_parent, "main");
    assert!(config.include_children);
}

#[test]
fn test_restack_config_without_children() {
    let config = RestackConfig { target_branch: "feature/only".to_string(), new_parent: "develop".to_string(), include_children: false };
    assert!(!config.include_children);
}

#[test]
fn test_restack_config_clone() {
    let config = RestackConfig { target_branch: "test".to_string(), new_parent: "main".to_string(), include_children: true };
    let cloned = config.clone();
    assert_eq!(config.target_branch, cloned.target_branch);
    assert_eq!(config.new_parent, cloned.new_parent);
    assert_eq!(config.include_children, cloned.include_children);
}

#[test]
fn test_restack_plan_no_rebase_needed() {
    let plan = RestackPlan {
        target_branch: "feature/test".to_string(),
        new_parent: "main".to_string(),
        old_parent: Some("main".to_string()),
        branches_to_rebase: vec![],
        needs_rebase: false,
        diverged: vec![],
    };
    assert!(!plan.needs_rebase);
    assert!(plan.branches_to_rebase.is_empty());
}

#[test]
fn test_restack_plan_with_children() {
    let plan = RestackPlan {
        target_branch: "feature/parent".to_string(),
        new_parent: "main".to_string(),
        old_parent: Some("develop".to_string()),
        branches_to_rebase: vec!["feature/parent".to_string(), "feature/child1".to_string(), "feature/child2".to_string()],
        needs_rebase: true,
        diverged: vec![],
    };
    assert!(plan.needs_rebase);
    assert_eq!(plan.branches_to_rebase.len(), 3);
}

#[test]
fn test_restack_plan_with_diverged() {
    let plan = RestackPlan {
        target_branch: "feature/diverged".to_string(),
        new_parent: "main".to_string(),
        old_parent: None,
        branches_to_rebase: vec!["feature/diverged".to_string()],
        needs_rebase: true,
        diverged: vec![DivergenceInfo { branch: "feature/diverged".to_string(), ahead: 2, behind: 1 }],
    };
    assert_eq!(plan.diverged.len(), 1);
    assert_eq!(plan.diverged[0].ahead, 2);
}

#[test]
fn test_restack_plan_clone() {
    let plan = RestackPlan {
        target_branch: "test".to_string(),
        new_parent: "main".to_string(),
        old_parent: Some("old".to_string()),
        branches_to_rebase: vec!["test".to_string()],
        needs_rebase: true,
        diverged: vec![],
    };
    let cloned = plan.clone();
    assert_eq!(plan.target_branch, cloned.target_branch);
    assert_eq!(plan.needs_rebase, cloned.needs_rebase);
}

#[test]
fn test_restack_result_creation() {
    let result = RestackResult {
        target_branch: "feature/x".to_string(),
        old_parent: Some("develop".to_string()),
        new_parent: "main".to_string(),
        branches_rebased: vec!["feature/x".to_string()],
        diverged_branches: vec![],
    };
    assert_eq!(result.target_branch, "feature/x");
    assert_eq!(result.old_parent, Some("develop".to_string()));
    assert_eq!(result.new_parent, "main");
    assert_eq!(result.branches_rebased.len(), 1);
}

#[test]
fn test_restack_result_with_diverged() {
    let result = RestackResult {
        target_branch: "test".to_string(),
        old_parent: None,
        new_parent: "main".to_string(),
        branches_rebased: vec!["test".to_string()],
        diverged_branches: vec![DivergenceInfo { branch: "test".to_string(), ahead: 1, behind: 2 }],
    };
    assert_eq!(result.diverged_branches.len(), 1);
}

#[test]
fn test_restack_result_clone() {
    let result = RestackResult {
        target_branch: "test".to_string(),
        old_parent: None,
        new_parent: "main".to_string(),
        branches_rebased: vec!["test".to_string()],
        diverged_branches: vec![],
    };
    let cloned = result.clone();
    assert_eq!(result.target_branch, cloned.target_branch);
    assert_eq!(result.new_parent, cloned.new_parent);
}

#[test]
fn test_restack_result_multiple_rebased() {
    let result = RestackResult {
        target_branch: "parent".to_string(),
        old_parent: Some("base".to_string()),
        new_parent: "main".to_string(),
        branches_rebased: vec!["parent".to_string(), "child1".to_string(), "child2".to_string(), "grandchild".to_string()],
        diverged_branches: vec![],
    };
    assert_eq!(result.branches_rebased.len(), 4);
    assert!(result.branches_rebased.contains(&"grandchild".to_string()));
}

#[test]
fn test_restack_error_conflict_display() {
    let err = RestackError::Conflict {
        branch: "feature/test".to_string(),
        files: vec!["file1.rs".to_string(), "file2.rs".to_string()],
    };
    let display = err.message();
    assert!(display.contains("feature/test"));
    assert!(display.contains("Rebase conflict"));
}

#[test]
fn test_create_plan_branch_not_in_stack() {
    let stack = Stack::new();
    let err = check_restack(&stack, &config("nonexistent", "main", false), true).unwrap_err();
    assert!(message(&err).contains("not in the stack"));
}

#[test]
fn test_create_plan_new_parent_not_exists() {
    let stack = stack_of(&[("feature/a", None, None)]);
    let err = check_restack(&stack, &config("feature/a", "nonexistent", false), false).unwrap_err();
    assert!(message(&err).contains("does not exist"));
}

#[test]
fn test_create_plan_noop_same_parent() {
    let stack = stack_of(&[("feature/a", Some("main"), None)]);
    let c = config("feature/a", "main", false);
    match check_restack(&stack, &c, true).unwrap() {
        RestackCheck::AlreadyBased { old_parent } => {
            let plan = unchanged_plan(&c, old_parent);
            assert!(!plan.needs_rebase);
            assert!(plan.branches_to_rebase.is_empty());
        }
        RestackCheck::Proceed { .. } => panic!("expected no-op"),
    }
}

#[test]
fn test_create_plan_needs_rebase() {
    let stack = stack_of(&[("feature/a", Some("main"), None)]);
    let c = config("feature/a", "develop", false);
    let old_parent = match check_restack(&stack, &c, true).unwrap() {
        RestackCheck::Proceed { old_parent } => old_parent,
        RestackCheck::AlreadyBased { .. } => panic!("expected a move"),
    };
    let branches = rebase_list(&stack, &c);
    let remote = vec![None; branches.len()];
    let plan = plan_restack(
        &c,
        old_parent,
        &s("0000000000000000000000000000000000000000"),
        &s("1234567890123456789012345678901234567890"),
        branches,
        &remote,
    );
    assert_eq!(plan.target_branch, "feature/a");
    assert_eq!(plan.new_parent, "develop");
    assert_eq!(plan.old_parent, Some("main".to_string()));
    assert!(plan.branches_to_rebase.contains(&"feature/a".to_string()));
    assert!(plan.needs_rebase);
}

#[test]
fn test_create_plan_with_children() {
    let stack = stack_of(&[("feature/parent", Some("main"), None), ("feature/child", Some("feature/parent"), None)]);
    let c = config("feature/parent", "develop", true);
    assert!(check_restack(&stack, &c, true).is_ok());
    let branches = rebase_list(&stack, &c);
    assert!(branches.contains(&"feature/parent".to_string()));
    assert!(branches.contains(&"feature/child".to_string()));
    assert_eq!(branches.len(), 2);
}

#[test]
fn test_execute_no_rebase_needed() {
    let mut stack = stack_of(&[("feature/a", Some("develop"), None)]);
    let plan = RestackPlan {
        target_branch: "feature/a".to_string(),
        new_parent: "main".to_string(),
        old_parent: Some("develop".to_string()),
        branches_to_rebase: vec![],
        needs_rebase: false,
        diverged: vec![],
    };
    let state = apply_without_rebase(&mut stack, &plan, &s("feature/a")).unwrap();
    assert_eq!(parent_of(&stack, "feature/a"), Some("main"));
    assert!(state.completed.contains(&"feature/a".to_string()));
    assert!(state.stack_updated);
    assert!(state.is_complete());
}

#[test]
fn test_abort_no_restack_in_progress() {
    let err = require_restack_in_progress(false, "abort").unwrap_err();
    assert!(message(&err).contains("No restack in progress"));
}

#[test]
fn test_continue_no_restack_in_progress() {
    let err = require_restack_in_progress(false, "continue").unwrap_err();
    assert!(message(&err).contains("No restack in progress"));
    assert_eq!(message(&err), "No restack in progress to continue");
}

#[test]
fn test_check_divergence_no_divergence() {
    let diverged = check_divergence(&vec![s("feature/a")], &vec![Some(RemoteDivergence::InSync)]);
    assert!(diverged.is_empty());
}

#[test]
fn test_check_divergence_with_diverged_branches() {
    let branches = vec![s("feature/ok"), s("feature/diverged")];
    let remote = vec![Some(RemoteDivergence::InSync), Some(RemoteDivergence::Diverged { ahead: 3, behind: 2 })];
    let diverged = check_divergence(&branches, &remote);
    assert_eq!(diverged.len(), 1);
    assert_eq!(diverged[0].branch, "feature/diverged");
    assert_eq!(diverged[0].ahead, 3);
    assert_eq!(diverged[0].behind, 2);
}

#[test]
fn test_create_plan_cycle_detection() {
    let stack = stack_of(&[("feature/a", None, None), ("feature/b", Some("feature/a"), None)]);
    let err = check_restack(&stack, &config("feature/a", "feature/b", false), true).unwrap_err();
    assert!(message(&err).contains("would create a cycle"));
}

fn state_for(branches: &[&str]) -> RestackState {
    RestackState::new(
        s("backup-123"),
        s("feature/a"),
        s("develop"),
        Some(s("main")),
        s("feature/a"),
        branches.iter().map(|b| s(b)).collect(),
        vec![],
    )
}

#[test]
fn test_execute_restack_loop_completes_immediately() {
    let mut stack = stack_of(&[("feature/a", Some("main"), None)]);
    let mut state = state_for(&[]);
    assert!(state.is_complete());
    assert!(matches!(next_restack_step(&stack, &state), RestackStep::Finish));
    let result = finalize_restack(&mut stack, &mut state).unwrap();
    assert_eq!(result.target_branch, "feature/a");
    assert_eq!(parent_of(&stack, "feature/a"), Some("develop"));
}

#[test]
fn test_execute_restack_loop_with_conflict() {
    let stack = stack_of(&[("feature/a", Some("main"), None)]);
    let mut state = state_for(&["feature/a"]);
    match next_restack_step(&stack, &state) {
        RestackStep::Rebase { branch, onto } => {
            assert_eq!(branch, "feature/a");
            assert_eq!(onto, "develop");
        }
        RestackStep::Finish => panic!("expected a rebase"),
    }
    let err = record_rebase(&mut state, RebaseOutcome::Conflict(vec![s("conflict.txt")])).unwrap_err();
    match err {
        RestackError::Conflict { branch, files } => {
            assert_eq!(branch, "feature/a");
            assert!(!files.is_empty());
        }
        other @ RestackError::Other(_) => panic!("Expected Conflict error, got: {other:?}"),
    }
    assert_eq!(state.current_branch, "feature/a");
}

#[test]
fn test_abort_with_restack_in_progress() {
    let state = RestackState::new(s("backup-123"), s("feature"), s("develop"), Some(s("main")), s("feature"), vec![], vec![]);
    assert!(require_restack_in_progress(true, "abort").is_ok());
    let result = aborted_result(&state);
    assert_eq!(result.target_branch, "feature");
    assert!(result.branches_rebased.is_empty());
}

#[test]
fn test_continue_with_stale_state() {
    let state = state_for(&["feature/a"]);
    let err = check_not_stale(&state, false).unwrap_err();
    let msg = message(&err);
    assert!(msg.contains("process may have crashed") || msg.contains("no rebase in progress"));
    assert!(check_not_stale(&state, true).is_ok());
}

#[test]
fn test_execute_needs_rebase_creates_backup() {
    let plan = RestackPlan {
        target_branch: s("feature/a"),
        new_parent: s("develop"),
        old_parent: Some(s("main")),
        branches_to_rebase: vec![s("feature/a")],
        needs_rebase: true,
        diverged: vec![],
    };
    let state = start_restack(&plan, &s("feature/a"), s("backup-1"));
    assert!(!state.backup_id.is_empty());
    assert_eq!(state.current_branch, "feature/a");
    assert!(!state.is_complete());
}

#[test]
fn test_execute_with_diverged_branches() {
    let plan = RestackPlan {
        target_branch: s("feature/a"),
        new_parent: s("develop"),
        old_parent: Some(s("main")),
        branches_to_rebase: vec![s("feature/a")],
        needs_rebase: true,
        diverged: vec![DivergenceInfo { branch: s("feature/a"), ahead: 1, behind: 2 }],
    };
    let state = start_restack(&plan, &s("feature/a"), s("backup-1"));
    assert_eq!(state.diverged_branches.len(), 1);
    assert_eq!(state.diverged_branches[0].branch, "feature/a");
}

#[test]
fn restack_runs_descendants_onto_their_parents() {
    let mut stack = stack_of(&[
        ("a", Some("main"), None),
        ("b", Some("a"), None),
        ("c", Some("b"), None),
    ]);
    let c = config("a", "develop", true);
    let branches = rebase_list(&stack, &c);
    assert_eq!(branches, vec![s("a"), s("b"), s("c")]);
    let plan = plan_restack(&c, Some(s("main")), &s("x"), &s("y"), branches, &vec![None, None, None]);
    let mut state = start_restack(&plan, &s("c"), s("bk"));
    let mut ontos = vec![];
    loop {
        match next_restack_step(&stack, &state) {
            RestackStep::Finish => break,
            RestackStep::Rebase { branch, onto } => {
                ontos.push((branch, onto));
                record_rebase(&mut state, RebaseOutcome::Done).unwrap();
            }
        }
    }
    assert_eq!(ontos, vec![(s("a"), s("develop")), (s("b"), s("a")), (s("c"), s("b"))]);
    let result = finalize_restack(&mut stack, &mut state).unwrap();
    assert_eq!(result.branches_rebased, vec![s("a"), s("b"), s("c")]);
    assert_eq!(parent_of(&stack, "a"), Some("develop"));
    assert!(returns_to_original(&s("c"), &state));
    assert_eq!(done_message(&result), "Restacked 'a' and 2 descendant(s) onto 'develop'");
}

#[test]
fn failed_rebase_is_reported_and_state_kept() {
    let mut state = state_for(&["feature/a", "feature/b"]);
    let err = record_rebase(&mut state, RebaseOutcome::Failed(s("boom"))).unwrap_err();
    assert_eq!(message(&err), "boom");
    assert_eq!(state.current_branch, "feature/a");
    assert_eq!(state.remaining, vec![s("feature/b")]);
}

#[test]
fn restack_flags_and_decisions() {
    let mut opts = RestackOptions {
        json: false,
        branch: None,
        onto: None,
        dry_run: false,
        continue_: true,
        abort: true,
        include_children: false,
        force: false,
    };
    assert_eq!(restack_mode(&opts), Err(s("Cannot use --continue and --abort together")));
    opts.continue_ = false;
    assert_eq!(restack_mode(&opts), Ok(RestackMode::Abort));
    opts.abort = false;
    assert_eq!(restack_mode(&opts), Ok(RestackMode::Start));
    assert_eq!(
        check_no_restack(true),
        Err(s("Restack already in progress - use --continue to resume or --abort to cancel"))
    );

    let mut plan = RestackPlan {
        target_branch: s("a"),
        new_parent: s("main"),
        old_parent: Some(s("main")),
        branches_to_rebase: vec![],
        needs_rebase: false,
        diverged: vec![],
    };
    assert_eq!(decide_restack(&plan, false, false), RestackDecision::AlreadyBased);
    plan.old_parent = Some(s("dev"));
    assert_eq!(decide_restack(&plan, false, false), RestackDecision::TopologyOnly);
    plan.needs_rebase = true;
    plan.branches_to_rebase = vec![s("a")];
    assert_eq!(decide_restack(&plan, true, false), RestackDecision::DryRun);
    plan.diverged = vec![DivergenceInfo { branch: s("a"), ahead: 1, behind: 1 }];
    assert_eq!(decide_restack(&plan, false, false), RestackDecision::Diverged);
    assert_eq!(decide_restack(&plan, false, true), RestackDecision::Proceed);
}

#[test]
fn parent_choice_excludes_target_and_descendants() {
    let stack = stack_of(&[
        ("a", Some("main"), Some(3)),
        ("b", Some("a"), None),
        ("c", Some("main"), Some(9)),
    ]);
    assert_eq!(parent_options(&stack, &s("b"), false).unwrap(), vec![s("a #3"), s("c #9")]);
    assert_eq!(parent_options(&stack, &s("a"), false).unwrap(), vec![s("c #9")]);
    assert_eq!(parent_options(&stack, &s("a"), true), Err(s("--onto is required when using --json")));
    let lone = stack_of(&[("a", Some("main"), None)]);
    assert_eq!(parent_options(&lone, &s("a"), false), Err(s("No valid parent branches available in the stack")));
    assert_eq!(parent_from_selection("c #9"), Some(s("c")));
    assert_eq!(parent_from_selection("  x y"), Some(s("x")));
    assert_eq!(parent_from_selection("   "), None);
}

#[test]
fn restack_messages() {
    assert_eq!(already_based_message(&s("a"), &None), "'a' is already a child of '(base)'");
    let t = topology_messages(&s("a"), &s("main"), false);
    assert_eq!(t[0], (MessageKind::Success, s("Updated stack: 'a' now has parent 'main'")));
    let d = dry_run_messages(&s("a"), &Some(s("dev")), &s("main"));
    assert_eq!(d[1].1, "Would restack 'a' from 'dev' onto 'main'");
    let w = diverged_messages(&vec![DivergenceInfo { branch: s("a"), ahead: 2, behind: 3 }]);
    assert_eq!(w[0], (MessageKind::Warn, s("a has diverged from remote (2 ahead, 3 behind)")));
    assert_eq!(w.len(), 3);
    assert_eq!(start_message(&s("a"), &s("main"), true, 3), "Restacking 'a' and 2 descendant(s) onto 'main'...");
    assert_eq!(start_message(&s("a"), &s("main"), false, 3), "Restacking 'a' onto 'main'...");
    let c = conflict_lines(&vec![s("x.rs")]);
    assert_eq!(c.len(), 10);
    assert_eq!(c[9].1, "  x.rs");
    assert_eq!(conflict_lines(&vec![]).len(), 7);
}

#[test]
fn rebase_list_puts_each_branch_after_its_parent() {
    let stack = stack_of(&[
        ("t", Some("main"), None),
        ("g", Some("c"), None),
        ("c", Some("t"), None),
        ("h", Some("g"), None),
    ]);
    let list = rebase_list(&stack, &config("t", "main", true));
    assert_eq!(list[0], "t");
    assert_eq!(list.len(), 4);
    let pos = |x: &str| list.iter().position(|b| b == x).unwrap();
    assert!(pos("t") < pos("c") && pos("c") < pos("g") && pos("g") < pos("h"));
    assert_eq!(rebase_list(&stack, &config("t", "main", false)), vec![s("t")]);
}
