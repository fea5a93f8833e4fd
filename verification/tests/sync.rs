use rung_cli::doctor::PrState;
use rung_cli::output::MessageKind;
use rung_cli::stack::{Stack, StackBranch};
use rung_cli::sync::{
    BATCH_THRESHOLD, PushInfo, PullRequest, ExternalMergeInfo, ReparentedBranch, ReconcileResult, ReconciledMerge,
    SyncResult, SyncStatus, SyncMode, SyncAction, process_pr_result, use_batch, branches_with_prs, sort_fetched_prs,
    pr_base_updates, needs_base_update, sync_mode, check_sync_progress, base_branch_choice, count_pushed,
    handle_sync_result, aborted_output, print_reconcile_results, sync_dry_run_lines, print_pr_updates, undo_message,
};

fn s(x: &str) -> String {
    x.to_string()
}

fn pr(number: u64, state: PrState, base: &str, head: &str) -> PullRequest {
    PullRequest {
        number,
        title: s("PR"),
        body: None,
        state,
        base_branch: s(base),
        head_branch: s(head),
        html_url: format!("https://github.com/test/test/pull/{number}"),
        mergeable: None,
        mergeable_state: None,
        draft: false,
    }
}

#[test]
fn test_batch_threshold() {
    assert_eq!(BATCH_THRESHOLD, 5);
    assert!(!use_batch(5));
    assert!(use_batch(6));
}

#[test]
fn test_push_info_creation() {
    let info = PushInfo { branch: "feature/test".to_string(), success: true };
    assert_eq!(info.branch, "feature/test");
    assert!(info.success);
}

#[test]
fn test_push_info_failure() {
    let info = PushInfo { branch: "broken-branch".to_string(), success: false };
    assert_eq!(info.branch, "broken-branch");
    assert!(!info.success);
}

#[test]
fn test_push_info_clone() {
    let info = PushInfo { branch: "test".to_string(), success: true };
    let cloned = info.clone();
    assert_eq!(info.branch, cloned.branch);
    assert_eq!(info.success, cloned.success);
}

#[test]
fn test_process_pr_result_merged() {
    let p = pr(42, PrState::Merged, "main", "feature/test");
    let mut merged_prs = Vec::new();
    let mut ghost_parents = Vec::new();
    process_pr_result(&p, "feature/test", None, 42, "main", &mut merged_prs, &mut ghost_parents);
    assert_eq!(merged_prs.len(), 1);
    assert_eq!(merged_prs[0].branch_name, "feature/test");
    assert_eq!(merged_prs[0].pr_number, 42);
    assert_eq!(merged_prs[0].merged_into, "main");
    assert!(ghost_parents.is_empty());
}

#[test]
fn test_process_pr_result_open_matching_base() {
    let p = pr(43, PrState::Open, "main", "feature/open");
    let mut merged_prs = Vec::new();
    let mut ghost_parents = Vec::new();
    process_pr_result(&p, "feature/open", None, 43, "main", &mut merged_prs, &mut ghost_parents);
    assert!(merged_prs.is_empty());
    assert!(ghost_parents.is_empty());
}

#[test]
fn test_process_pr_result_ghost_parent_detected() {
    let p = pr(44, PrState::Open, "old-parent", "feature/ghost");
    let mut merged_prs = Vec::new();
    let mut ghost_parents = Vec::new();
    process_pr_result(&p, "feature/ghost", None, 44, "main", &mut merged_prs, &mut ghost_parents);
    assert!(merged_prs.is_empty());
    assert_eq!(ghost_parents.len(), 1);
    assert_eq!(ghost_parents[0].name, "feature/ghost");
    assert_eq!(ghost_parents[0].old_parent, "old-parent");
    assert_eq!(ghost_parents[0].new_parent, "main");
    assert_eq!(ghost_parents[0].pr_number, Some(44));
}

#[test]
fn test_process_pr_result_with_stack_parent() {
    let p = pr(45, PrState::Open, "feature/base", "feature/child");
    let mut merged_prs = Vec::new();
    let mut ghost_parents = Vec::new();
    let stack_parent = s("feature/base");
    process_pr_result(&p, "feature/child", Some(&stack_parent), 45, "main", &mut merged_prs, &mut ghost_parents);
    assert!(merged_prs.is_empty());
    assert!(ghost_parents.is_empty());
}

#[test]
fn test_process_pr_result_closed_not_merged() {
    let p = pr(46, PrState::Closed, "main", "feature/closed");
    let mut merged_prs = Vec::new();
    let mut ghost_parents = Vec::new();
    process_pr_result(&p, "feature/closed", None, 46, "main", &mut merged_prs, &mut ghost_parents);
    assert!(merged_prs.is_empty());
    assert!(ghost_parents.is_empty());
}

#[test]
fn test_process_pr_result_closed_with_mismatched_base() {
    let p = pr(47, PrState::Closed, "old-parent", "feature/closed-mismatch");
    let mut merged_prs = Vec::new();
    let mut ghost_parents = Vec::new();
    process_pr_result(&p, "feature/closed-mismatch", None, 47, "main", &mut merged_prs, &mut ghost_parents);
    assert!(merged_prs.is_empty());
    assert!(ghost_parents.is_empty());
}

#[test]
fn test_external_merge_info_fields() {
    let info = ExternalMergeInfo { branch_name: "feature/merged".to_string(), pr_number: 100, merged_into: "main".to_string() };
    assert_eq!(info.branch_name, "feature/merged");
    assert_eq!(info.pr_number, 100);
    assert_eq!(info.merged_into, "main");
}

#[test]
fn test_reparented_branch_fields() {
    let reparent = ReparentedBranch {
        name: "feature/moved".to_string(),
        old_parent: "old-branch".to_string(),
        new_parent: "new-branch".to_string(),
        pr_number: Some(99),
    };
    assert_eq!(reparent.name, "feature/moved");
    assert_eq!(reparent.old_parent, "old-branch");
    assert_eq!(reparent.new_parent, "new-branch");
    assert_eq!(reparent.pr_number, Some(99));
}

#[test]
fn test_reparented_branch_without_pr() {
    let reparent = ReparentedBranch { name: "local-only".to_string(), old_parent: "old".to_string(), new_parent: "new".to_string(), pr_number: None };
    assert!(reparent.pr_number.is_none());
}

fn stack_with_pr(name: &str, parent: Option<&str>, pr_number: u64) -> Stack {
    let mut stack = Stack::new();
    let mut b = StackBranch::new(s(name), parent.map(s));
    b.pr = Some(pr_number);
    stack.add_branch(b);
    stack
}

#[test]
fn test_detect_and_reconcile_no_prs() {
    let stack = Stack::new();
    let entries = branches_with_prs(&stack);
    assert!(entries.is_empty());
    let result = ReconcileResult::empty();
    assert!(result.merged.is_empty() && result.reparented.is_empty() && result.repaired.is_empty());
}

#[test]
fn test_detect_and_reconcile_with_open_prs() {
    let stack = stack_with_pr("feature/a", None, 10);
    let entries = branches_with_prs(&stack);
    let (merged, ghosts) = sort_fetched_prs(&entries, &vec![Some(pr(10, PrState::Open, "main", "feature/a"))], "main");
    assert!(merged.is_empty());
    assert!(ghosts.is_empty());
}

#[test]
fn test_detect_and_reconcile_detects_merged_pr() {
    let stack = stack_with_pr("feature/a", None, 10);
    let entries = branches_with_prs(&stack);
    let (merged, _) = sort_fetched_prs(&entries, &vec![Some(pr(10, PrState::Merged, "main", "feature/a"))], "main");
    assert_eq!(merged.len(), 1);
    assert_eq!(merged[0].branch_name, "feature/a");
}

#[test]
fn test_detect_ghost_parent() {
    let stack = stack_with_pr("feature/a", None, 10);
    let entries = branches_with_prs(&stack);
    let (merged, ghosts) = sort_fetched_prs(&entries, &vec![Some(pr(10, PrState::Open, "old-parent", "feature/a"))], "main");
    assert!(merged.is_empty());
    assert_eq!(ghosts.len(), 1);
    assert_eq!(ghosts[0].name, "feature/a");
    assert_eq!(ghosts[0].old_parent, "old-parent");
    assert_eq!(ghosts[0].new_parent, "main");
}

#[test]
fn test_update_pr_bases_empty() {
    assert!(pr_base_updates(&ReconcileResult::empty()).is_empty());
}

#[test]
fn test_update_pr_bases_with_reparented() {
    let result = ReconcileResult {
        merged: vec![],
        reparented: vec![ReparentedBranch { name: s("feature/a"), old_parent: s("old-parent"), new_parent: s("main"), pr_number: Some(10) }],
        repaired: vec![ReparentedBranch { name: s("x"), old_parent: s("o"), new_parent: s("n"), pr_number: None }],
    };
    let updates = pr_base_updates(&result);
    assert_eq!(updates, vec![(10, s("main"), s("old-parent"))]);
    assert!(needs_base_update(&Some(s("old-parent")), &updates[0].1));
    assert!(!needs_base_update(&Some(s("main")), &updates[0].1));
    assert!(needs_base_update(&None, &updates[0].1));
    colored::control::set_override(false);
    assert_eq!(print_pr_updates(&result), vec![(MessageKind::Success, s("Updated PR #10 base: old-parent → main"))]);
}

#[test]
fn unfetched_prs_are_skipped() {
    let mut stack = stack_with_pr("a", None, 1);
    let mut b = StackBranch::new(s("b"), Some(s("a")));
    b.pr = Some(2);
    stack.add_branch(b);
    stack.add_branch(StackBranch::new(s("c"), Some(s("b"))));
    let entries = branches_with_prs(&stack);
    assert_eq!(entries, vec![(s("a"), None, 1), (s("b"), Some(s("a")), 2)]);
    let (merged, ghosts) = sort_fetched_prs(&entries, &vec![None, Some(pr(2, PrState::Open, "main", "b"))], "main");
    assert!(merged.is_empty());
    assert_eq!(ghosts.len(), 1);
    assert_eq!(ghosts[0].new_parent, "a");
}

#[test]
fn test_push_stack_branches_with_push_failure() {
    let results = vec![PushInfo { branch: s("feature/a"), success: true }, PushInfo { branch: s("feature/b"), success: false }];
    assert_eq!(count_pushed(&results), 1);
}

#[test]
fn sync_flags() {
    assert_eq!(sync_mode(true, true), Err(s("Cannot use --continue and --abort together")));
    assert_eq!(sync_mode(false, true), Ok(SyncMode::Abort));
    assert_eq!(sync_mode(true, false), Ok(SyncMode::Continue));
    assert_eq!(sync_mode(false, false), Ok(SyncMode::Start));
    assert_eq!(check_sync_progress(SyncMode::Abort, false), Err(s("No sync in progress to abort")));
    assert_eq!(check_sync_progress(SyncMode::Continue, false), Err(s("No sync in progress to continue")));
    assert_eq!(
        check_sync_progress(SyncMode::Start, true),
        Err(s("Sync already in progress - use --continue to resume or --abort to cancel"))
    );
    assert!(check_sync_progress(SyncMode::Start, false).is_ok());
    assert_eq!(base_branch_choice(Some("dev"), false), Ok(Some(s("dev"))));
    assert_eq!(base_branch_choice(None, true), Ok(None));
    assert_eq!(
        base_branch_choice(None, false),
        Err(s("No GitHub origin remote detected. Use --base <branch> to specify manually."))
    );
}

#[test]
fn sync_result_reports() {
    let (out, lines) = handle_sync_result(SyncResult::AlreadySynced, true);
    assert_eq!(out.status, SyncStatus::AlreadySynced);
    assert_eq!(out.branches_rebased, Some(0));
    assert!(out.github_auth_unavailable);
    assert_eq!(lines, vec![(MessageKind::Success, s("Stack is already up-to-date"))]);
    let (out, lines) = handle_sync_result(SyncResult::Complete { branches_rebased: 3, backup_id: s("1234567890") }, false);
    assert_eq!(out.status, SyncStatus::Complete);
    assert_eq!(out.backup_id, Some(s("1234567890")));
    assert_eq!(lines[0].1, "Synced 3 branches (backup: 12345678)");
    let (out, lines) = handle_sync_result(
        SyncResult::Paused { at_branch: s("b"), conflict_files: vec![s("x.rs")], backup_id: s("id") },
        false,
    );
    assert_eq!(out.status, SyncStatus::Conflict);
    assert_eq!(out.conflict_branch, Some(s("b")));
    assert_eq!(lines[0], (MessageKind::Warn, s("Conflict in branch 'b'")));
    assert_eq!(lines[2], (MessageKind::Essential, s("  → x.rs")));
    assert_eq!(lines.len(), 6);
    assert_eq!(aborted_output().status, SyncStatus::Aborted);
}

#[test]
fn reconcile_and_dry_run_lines() {
    let result = ReconcileResult {
        merged: vec![ReconciledMerge { name: s("a"), pr_number: 4, merged_into: s("main") }],
        reparented: vec![ReparentedBranch { name: s("b"), old_parent: s("a"), new_parent: s("main"), pr_number: Some(5) }],
        repaired: vec![ReparentedBranch { name: s("c"), old_parent: s("x"), new_parent: s("b"), pr_number: None }],
    };
    let lines = print_reconcile_results(&result);
    assert_eq!(lines[0], (MessageKind::Success, s("PR #4 (a) merged into main")));
    assert_eq!(lines[1], (MessageKind::Info, s("Re-parented b → main (was a)")));
    assert_eq!(lines[2], (MessageKind::Warn, s("Ghost parent: no PR (c) base was 'x', correcting to 'b'")));
    let dry = sync_dry_run_lines(&vec![SyncAction { branch: s("b"), new_base: s("0123456789abcdef") }], 1);
    assert_eq!(dry[1].1, "  Merged PRs detected: 1");
    assert_eq!(dry[2].1, "  Branches to rebase:");
    assert_eq!(dry[3].1, "    → b (onto 01234567)");
}

#[test]
fn undo_reports_restored_branches() {
    assert_eq!(undo_message(3, &s("1234567890abcdef")), "Restored 3 branches from backup 12345678");
    assert_eq!(undo_message(1, &s("abc")), "Restored 1 branches from backup abc");
}
