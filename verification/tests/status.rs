use rung_cli::doctor::PrState;
use rung_cli::output::{MessageKind, PrStatus};
use rung_cli::restack::RemoteDivergence;
use rung_cli::stack::{Stack, StackBranch};
use rung_cli::status::{
    compute_branch_state, compute_status, display_status, pr_noun, pr_state_label, print_tree,
    remote_divergence_indicator, state_from_commits, state_indicator, tree_row, BranchState,
    BranchStatusInfo, BranchWithPrStatus, RemoteDivergenceInfo, StackStatus, with_pr_status, stack_pr_numbers,
    fetching_message,
};

const ZERO: &str = "0000000000000000000000000000000000000000";

fn s(x: &str) -> String {
    x.to_string()
}

/// The state of `branch` in a repository whose branches are `existing`, all
/// pointing at the same commit.
fn state_in(branch: &StackBranch, existing: &[&str]) -> BranchState {
    let parent_exists = match &branch.parent {
        Some(p) => existing.contains(&p.as_str()),
        None => false,
    };
    let branch_exists = existing.contains(&branch.name.as_str());
    match compute_branch_state(branch, parent_exists, branch_exists) {
        Some(state) => state,
        None => state_from_commits(&s(ZERO), &s(ZERO), 0),
    }
}

fn status_in(stack: &Stack, existing: &[&str], current: Option<&str>) -> StackStatus {
    let states: Vec<BranchState> = stack.branches.iter().map(|b| state_in(b, existing)).collect();
    let remote: Vec<Option<RemoteDivergence>> = stack.branches.iter().map(|_| None).collect();
    compute_status(stack, current.map(s), states, &remote)
}

#[test]
fn test_status_service_compute_status_empty_stack() {
    let stack = Stack::new();
    let status = status_in(&stack, &[], Some("main"));
    assert!(status.is_empty());
    assert_eq!(status.current_branch, Some("main".to_string()));
}

#[test]
fn test_status_service_compute_status_with_branches() {
    let mut stack = Stack::new();
    stack.add_branch(StackBranch::new(s("feature/test"), None));
    let status = status_in(&stack, &["main", "feature/test"], Some("feature/test"));
    assert!(!status.is_empty());
    assert_eq!(status.branches.len(), 1);
    assert_eq!(status.branches[0].name, "feature/test");
    assert!(status.branches[0].is_current);
}

#[test]
fn test_status_service_compute_branch_state_root_synced() {
    let branch = StackBranch::new(s("feature/root"), None);
    let state = state_in(&branch, &["feature/root"]);
    assert!(matches!(state, BranchState::Synced));
}

#[test]
fn test_status_service_compute_branch_state_parent_missing() {
    let branch = StackBranch::new(s("feature/child"), Some(s("deleted-parent")));
    let state = state_in(&branch, &["feature/child"]);
    assert!(matches!(state, BranchState::Detached));
}

#[test]
fn test_status_service_compute_branch_state_branch_missing() {
    let branch = StackBranch::new(s("deleted-branch"), Some(s("main")));
    let state = state_in(&branch, &["main"]);
    assert!(matches!(state, BranchState::Detached));
}

#[test]
fn test_status_service_compute_branch_state_synced_with_parent() {
    let branch = StackBranch::new(s("feature/child"), Some(s("main")));
    let state = state_in(&branch, &["main", "feature/child"]);
    assert!(matches!(state, BranchState::Synced));
}

#[test]
fn test_status_service_multiple_branches() {
    let mut stack = Stack::new();
    stack.add_branch(StackBranch::new(s("feature/a"), None));
    stack.add_branch(StackBranch::new(s("feature/b"), Some(s("feature/a"))));
    let status = status_in(&stack, &["main", "feature/a", "feature/b"], Some("feature/b"));
    assert_eq!(status.branches.len(), 2);
    assert!(!status.branches[0].is_current);
    assert!(status.branches[1].is_current);
}

#[test]
fn test_status_service_compute_branch_state_parent_in_stack_but_deleted() {
    let mut stack = Stack::new();
    stack.add_branch(StackBranch::new(s("feature/parent"), None));
    stack.add_branch(StackBranch::new(s("feature/child"), Some(s("feature/parent"))));
    let state = state_in(&stack.branches[1], &["feature/child"]);
    assert!(matches!(state, BranchState::Detached));
}

#[test]
fn test_stack_status_empty() {
    let status = StackStatus::empty();
    assert!(status.is_empty());
    assert!(status.current_branch.is_none());
}

#[test]
fn test_stack_status_with_branches() {
    let status = StackStatus {
        branches: vec![BranchStatusInfo {
            name: "feature/test".to_string(),
            parent: Some("main".to_string()),
            state: BranchState::Synced,
            pr: Some(123),
            is_current: true,
            remote_divergence: Some(RemoteDivergenceInfo::InSync),
        }],
        current_branch: Some("feature/test".to_string()),
    };
    assert!(!status.is_empty());
    assert_eq!(status.branches.len(), 1);
}

#[test]
fn test_remote_divergence_from() {
    let in_sync = RemoteDivergenceInfo::from(&RemoteDivergence::InSync);
    assert!(matches!(in_sync, RemoteDivergenceInfo::InSync));

    let ahead = RemoteDivergenceInfo::from(&RemoteDivergence::Ahead { commits: 3 });
    assert!(matches!(ahead, RemoteDivergenceInfo::Ahead { commits: 3 }));

    let behind = RemoteDivergenceInfo::from(&RemoteDivergence::Behind { commits: 2 });
    assert!(matches!(behind, RemoteDivergenceInfo::Behind { commits: 2 }));

    let diverged = RemoteDivergenceInfo::from(&RemoteDivergence::Diverged { ahead: 1, behind: 2 });
    assert!(matches!(diverged, RemoteDivergenceInfo::Diverged { ahead: 1, behind: 2 }));

    let no_remote = RemoteDivergenceInfo::from(&RemoteDivergence::NoRemote);
    assert!(matches!(no_remote, RemoteDivergenceInfo::NoRemote));
}

#[test]
fn test_state_indicator_synced() {
    let indicator = state_indicator(&BranchState::Synced);
    assert!(!indicator.is_empty());
}

#[test]
fn test_state_indicator_diverged() {
    let indicator = state_indicator(&BranchState::Diverged { commits_behind: 3 });
    assert!(indicator.contains('3'));
    assert!(indicator.contains('↓'));
}

#[test]
fn test_state_indicator_conflict() {
    let indicator = state_indicator(&BranchState::Conflict { files: vec!["test.rs".to_string()] });
    assert!(!indicator.is_empty());
}

#[test]
fn test_state_indicator_detached() {
    let indicator = state_indicator(&BranchState::Detached);
    assert!(!indicator.is_empty());
}

#[test]
fn state_indicator_exact_text_without_colour() {
    colored::control::set_override(false);
    assert_eq!(state_indicator(&BranchState::Synced), "●");
    assert_eq!(state_indicator(&BranchState::Diverged { commits_behind: 12 }), "● (12↓)");
    assert_eq!(state_indicator(&BranchState::Detached), "○");
    colored::control::unset_override();
}

#[test]
fn diverged_state_counts_the_commits_behind() {
    let state = state_from_commits(&s("abc"), &s("def"), 4);
    assert!(matches!(state, BranchState::Diverged { commits_behind: 4 }));
}

#[test]
fn status_carries_remote_divergence_and_pr() {
    let mut stack = Stack::new();
    let mut b = StackBranch::new(s("feature/x"), Some(s("main")));
    b.pr = Some(7);
    stack.add_branch(b);
    let remote = vec![Some(RemoteDivergence::Diverged { ahead: 2, behind: 1 })];
    let status = compute_status(&stack, None, vec![BranchState::Detached], &remote);
    assert_eq!(status.branches[0].pr, Some(7));
    assert_eq!(status.branches[0].parent, Some(s("main")));
    assert!(!status.branches[0].is_current);
    assert!(matches!(status.branches[0].state, BranchState::Detached));
    assert_eq!(status.branches[0].remote_divergence, Some(RemoteDivergenceInfo::Diverged { ahead: 2, behind: 1 }));
    assert_eq!(status.current_branch, None);
}

#[test]
fn pr_display_status_and_label() {
    assert_eq!(display_status(PrState::Open, true), PrStatus::Draft);
    assert_eq!(display_status(PrState::Open, false), PrStatus::Open);
    assert_eq!(display_status(PrState::Merged, true), PrStatus::Merged);
    assert_eq!(display_status(PrState::Closed, false), PrStatus::Closed);
    assert_eq!(pr_noun(1), "PR");
    assert_eq!(pr_noun(2), "PRs");
    let _ = pr_state_label(PrStatus::Open);
}

#[test]
fn remote_indicator_without_colour() {
    colored::control::set_override(false);
    assert_eq!(remote_divergence_indicator(&RemoteDivergenceInfo::InSync), None);
    assert_eq!(remote_divergence_indicator(&RemoteDivergenceInfo::NoRemote), None);
    assert!(remote_divergence_indicator(&RemoteDivergenceInfo::Ahead { commits: 2 }).unwrap().contains('2'));
    let d = remote_divergence_indicator(&RemoteDivergenceInfo::Diverged { ahead: 3, behind: 5 }).unwrap();
    assert!(d.contains('3') && d.contains('5'));
    colored::control::unset_override();
}

#[test]
fn tree_lists_each_branch() {
    colored::control::set_override(false);
    let info = |name: &str, parent: Option<&str>, state: BranchState, pr: Option<u64>, current: bool,
                rd: Option<RemoteDivergenceInfo>| BranchStatusInfo {
        name: s(name),
        parent: parent.map(s),
        state,
        pr,
        is_current: current,
        remote_divergence: rd,
    };
    let rows = vec![
        BranchWithPrStatus {
            info: info("feature/a", None, BranchState::Synced, Some(1), true, None),
            pr_state: Some(s("open")),
            display_status: Some(PrStatus::Open),
        },
        BranchWithPrStatus {
            info: info(
                "feature/b",
                Some("feature/a"),
                BranchState::Diverged { commits_behind: 2 },
                None,
                false,
                Some(RemoteDivergenceInfo::Diverged { ahead: 1, behind: 1 }),
            ),
            pr_state: None,
            display_status: None,
        },
    ];
    let row = tree_row(&rows[0]);
    assert!(row.contains("feature/a"));
    assert!(row.contains("#1"));
    let lines = print_tree(&rows);
    assert_eq!(lines.len(), 2 + 7 + 1 + 2);
    assert!(lines.iter().any(|(_, l)| l.contains("feature/b")));
    assert!(lines.iter().any(|(k, _)| *k == MessageKind::Warn));
    colored::control::unset_override();
}

#[test]
fn pr_status_from_fetched_pull_requests() {
    let info = |pr: Option<u64>| BranchStatusInfo {
        name: s("x"),
        parent: None,
        state: BranchState::Synced,
        pr,
        is_current: false,
        remote_divergence: None,
    };
    let fetched = vec![(5, PrState::Open, true), (6, PrState::Merged, false), (7, PrState::Open, false)];
    let b = with_pr_status(info(Some(5)), &fetched);
    assert_eq!(b.display_status, Some(PrStatus::Draft));
    assert_eq!(b.pr_state, Some(s("draft")));
    let b = with_pr_status(info(Some(6)), &fetched);
    assert_eq!(b.display_status, Some(PrStatus::Merged));
    assert_eq!(b.pr_state, Some(s("merged")));
    let b = with_pr_status(info(Some(7)), &fetched);
    assert_eq!(b.pr_state, Some(s("open")));
    let b = with_pr_status(info(Some(8)), &fetched);
    assert_eq!(b.display_status, None);
    assert_eq!(b.pr_state, None);
    let b = with_pr_status(info(None), &fetched);
    assert_eq!(b.display_status, None);
}

#[test]
fn pr_numbers_and_fetch_message() {
    let mut stack = Stack::new();
    let mut a = StackBranch::new(s("a"), None);
    a.pr = Some(4);
    stack.add_branch(a);
    stack.add_branch(StackBranch::new(s("b"), Some(s("a"))));
    let mut c = StackBranch::new(s("c"), Some(s("b")));
    c.pr = Some(9);
    stack.add_branch(c);
    assert_eq!(stack_pr_numbers(&stack), vec![4, 9]);
    assert_eq!(fetching_message(1), "Fetching status for 1 PR...");
    assert_eq!(fetching_message(2), "Fetching status for 2 PRs...");
}

#[test]
fn tree_legend_and_row_without_colour() {
    colored::control::set_override(false);
    let rows = vec![BranchWithPrStatus {
        info: BranchStatusInfo {
            name: s("feat"),
            parent: Some(s("main")),
            state: BranchState::Diverged { commits_behind: 2 },
            pr: Some(9),
            is_current: false,
            remote_divergence: Some(RemoteDivergenceInfo::Ahead { commits: 1 }),
        },
        pr_state: None,
        display_status: None,
    }];
    assert_eq!(tree_row(&rows[0]), "  ● (2↓)   feat #9 ← main (1↑)");
    let lines = print_tree(&rows);
    assert_eq!(lines.len(), 1 + 7);
    assert_eq!(lines[1].1, "  Stack");
    assert_eq!(lines[3].1, "  ● (2↓)   feat #9 ← main (1↑)");
    assert_eq!(lines[6].1, "  ● synced  ● needs sync  ● conflict");
    colored::control::unset_override();
}

#[test]
fn divergence_report_by_method() {
    assert!(matches!(
        RemoteDivergenceInfo::from_divergence(&RemoteDivergence::Behind { commits: 4 }),
        RemoteDivergenceInfo::Behind { commits: 4 }
    ));
}
