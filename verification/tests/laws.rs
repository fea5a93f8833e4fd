use rung_cli::fold::specified_branches_config;
use rung_cli::output::{to_stderr, MessageKind};
use rung_cli::split::suggest_branch_name;
use rung_cli::stack::{Stack, StackBranch};
use rung_cli::submit::{
    build_branch_chain, find_stack_comment, generate_stack_comment, generate_title, pr_request, PlannedBranchAction,
    PrRequest,
};
use rung_cli::sync::{
    has_base_updates, next_sync_step, ReconcileResult, ReparentedBranch, SyncEvent, SyncFlags, SyncPhase, SyncStep,
};
use rung_cli::text::has_substring;

fn s(x: &str) -> String {
    x.to_string()
}

fn stack_of(items: &[(&str, Option<&str>, Option<u64>)]) -> Stack {
    let mut stack = Stack::new();
    for (name, parent, pr) in items {
        let mut b = StackBranch::new(name.to_string(), parent.map(|p| p.to_string()));
        b.pr = *pr;
        stack.add_branch(b);
    }
    stack
}

#[test]
fn errors_and_warnings_go_to_stderr() {
    assert!(to_stderr(MessageKind::Error));
    assert!(to_stderr(MessageKind::Warn));
    assert!(to_stderr(MessageKind::ErrorText));
    assert!(!to_stderr(MessageKind::Success));
    assert!(!to_stderr(MessageKind::Info));
    assert!(!to_stderr(MessageKind::Detail));
    assert!(!to_stderr(MessageKind::Essential));
    assert!(!to_stderr(MessageKind::Rule));
}

#[test]
fn pr_request_for_update_retargets() {
    let action = PlannedBranchAction::Update { branch: s("a"), pr_number: 5, pr_url: s("u"), base: s("main") };
    match pr_request(&action, None) {
        PrRequest::Retarget { number, base } => {
            assert_eq!(number, 5);
            assert_eq!(base, "main");
        }
        other => panic!("unexpected {other:?}"),
    }
}

#[test]
fn pr_request_for_create_retargets_a_found_pr_or_opens_one() {
    let action =
        PlannedBranchAction::Create { branch: s("feat"), title: s("Feat"), body: s("b"), base: s("main"), draft: true };
    match pr_request(&action, Some(9)) {
        PrRequest::Retarget { number, base } => {
            assert_eq!(number, 9);
            assert_eq!(base, "main");
        }
        other => panic!("unexpected {other:?}"),
    }
    match pr_request(&action, None) {
        PrRequest::Open { title, body, head, base, draft } => {
            assert_eq!(title, "Feat");
            assert_eq!(body, "b");
            assert_eq!(head, "feat");
            assert_eq!(base, "main");
            assert!(draft);
        }
        other => panic!("unexpected {other:?}"),
    }
}

#[test]
fn stack_comment_is_found_by_its_marker() {
    let bodies = vec![None, Some(s("hello")), Some(s("x <!-- rung-stack --> y")), Some(s("<!-- rung-stack -->"))];
    assert_eq!(find_stack_comment(&bodies), Some(2));
    let none = vec![None, Some(s("<!-- rung-stack")), Some(s(""))];
    assert_eq!(find_stack_comment(&none), None);
    assert_eq!(find_stack_comment(&Vec::new()), None);
}

#[test]
fn substring_search() {
    assert!(has_substring("abcabd", "abd"));
    assert!(has_substring("abc", ""));
    assert!(has_substring("abc", "abc"));
    assert!(!has_substring("ab", "abc"));
    assert!(!has_substring("aXbXc", "abc"));
}

#[test]
fn generated_titles_are_stable() {
    for name in ["feature/add-auth", "fix__double--dash", "a/b/c_d-e", "UPPER-case_mix", "--", "x"] {
        let t = generate_title(name);
        assert!(!t.contains('/') && !t.contains('-') && !t.contains('_'), "{t}");
        assert_eq!(generate_title(&t), t);
        assert!(!t.starts_with(' ') && !t.ends_with(' ') && !t.contains("  "), "{t}");
    }
    assert_eq!(generate_title("feature/add-auth"), "Add Auth");
    assert_eq!(generate_title("fix__double--dash"), "Fix Double Dash");
}

#[test]
fn suggested_names_are_alphanumeric_runs() {
    assert_eq!(suggest_branch_name("Fix: the bug!! in  parser2 now", "split", 0), "fix-the-bug-in");
    assert_eq!(suggest_branch_name("foo.bar/baz", "split", 0), "foo-bar-baz");
    assert_eq!(suggest_branch_name("ABC", "split", 3), "abc");
    assert_eq!(suggest_branch_name("!!! ---", "split", 3), "split-part-4");
}

#[test]
fn branch_chain_lists_ancestors_then_descendants() {
    let stack = stack_of(&[
        ("a", Some("main"), Some(1)),
        ("b", Some("a"), Some(2)),
        ("c", Some("b"), None),
        ("d", Some("a"), None),
        ("x", Some("main"), None),
    ]);
    let chain = build_branch_chain(&stack, &s("c"));
    assert_eq!(chain, vec![s("a"), s("b"), s("c"), s("d")]);
    let chain = build_branch_chain(&stack, &s("a"));
    assert_eq!(chain, vec![s("a"), s("b"), s("d"), s("c")]);
}

#[test]
fn stack_comment_layout_example() {
    let stack = stack_of(&[("a", Some("main"), Some(1)), ("b", Some("a"), Some(2)), ("c", Some("b"), None)]);
    let comment = generate_stack_comment(&stack, 2, &s("develop"));
    let expected = "<!-- rung-stack -->\n* *(pending)* `c`\n* **#2** 👈\n* **#1**\n* `main`\n\n---\n*Managed by [rung](https://github.com/auswm85/rung)*";
    assert_eq!(comment, expected);
    let detached = stack_of(&[("a", None, Some(1)), ("b", Some("a"), Some(2))]);
    let comment = generate_stack_comment(&detached, 1, &s("develop"));
    assert!(comment.ends_with("* **#1** 👈\n* `develop`\n\n---\n*Managed by [rung](https://github.com/auswm85/rung)*"));
}

#[test]
fn specified_fold_needs_one_chain() {
    let stack = stack_of(&[
        ("a", Some("main"), None),
        ("b", Some("a"), None),
        ("c", Some("b"), None),
        ("d", Some("a"), None),
    ]);
    let cfg = specified_branches_config(&stack, &vec![s("c"), s("a"), s("b")], &s("main")).unwrap();
    assert_eq!(cfg.target_branch, "a");
    assert_eq!(cfg.branches_to_fold, vec![s("b"), s("c")]);
    assert_eq!(cfg.new_parent, "main");
    // a given name twice
    assert!(specified_branches_config(&stack, &vec![s("a"), s("b"), s("b")], &s("main")).is_err());
    // a fork
    assert!(specified_branches_config(&stack, &vec![s("a"), s("b"), s("d")], &s("main")).is_err());
    // a gap
    assert!(specified_branches_config(&stack, &vec![s("a"), s("c")], &s("main")).is_err());
}

fn flags(dry_run: bool, no_push: bool, has_forge: bool, has_base_updates: bool) -> SyncFlags {
    SyncFlags { dry_run, no_push, has_forge, has_base_updates }
}

#[test]
fn sync_steps_for_an_empty_stack_and_a_dry_run() {
    let f = flags(false, false, true, true);
    let (p, step) = next_sync_step(SyncPhase::Reconciled(f), SyncEvent::StackLoaded { empty: true });
    assert_eq!((p, step), (SyncPhase::Finished, SyncStep::ReportEmpty));
    let d = flags(true, false, true, true);
    let (p, step) = next_sync_step(SyncPhase::Reconciled(d), SyncEvent::StackLoaded { empty: false });
    assert_eq!(step, SyncStep::MakePlan);
    let (p, step) = next_sync_step(p, SyncEvent::PlanMade { empty: false });
    assert_eq!((p, step), (SyncPhase::Finished, SyncStep::ShowDryRun));
}

#[test]
fn sync_steps_for_a_complete_sync() {
    let f = flags(false, false, true, true);
    let (p, step) = next_sync_step(SyncPhase::Reconciled(f), SyncEvent::StackLoaded { empty: false });
    assert_eq!(step, SyncStep::MakePlan);
    let (p, step) = next_sync_step(p, SyncEvent::PlanMade { empty: false });
    assert_eq!(step, SyncStep::Execute);
    let (p, step) = next_sync_step(p, SyncEvent::Executed { paused: false });
    assert_eq!(step, SyncStep::UpdatePrBases);
    let (p, step) = next_sync_step(p, SyncEvent::StepDone);
    assert_eq!(step, SyncStep::Push);
    let (p, step) = next_sync_step(p, SyncEvent::StepDone);
    assert_eq!((p, step), (SyncPhase::Finished, SyncStep::Report { already_synced: false }));
    assert_eq!(next_sync_step(p, SyncEvent::StepDone), (SyncPhase::Finished, SyncStep::Idle));
}

#[test]
fn sync_steps_for_an_empty_plan_a_pause_and_no_push() {
    let f = flags(false, true, false, true);
    let (p, _) = next_sync_step(SyncPhase::Reconciled(f), SyncEvent::StackLoaded { empty: false });
    let (p2, step) = next_sync_step(p, SyncEvent::PlanMade { empty: true });
    assert_eq!((p2, step), (SyncPhase::Finished, SyncStep::Report { already_synced: true }));
    let g = flags(false, false, true, true);
    let (p, _) = next_sync_step(SyncPhase::Reconciled(g), SyncEvent::StackLoaded { empty: false });
    let (p, _) = next_sync_step(p, SyncEvent::PlanMade { empty: false });
    let (p, step) = next_sync_step(p, SyncEvent::Executed { paused: true });
    assert_eq!((p, step), (SyncPhase::Finished, SyncStep::Report { already_synced: false }));
    let h = flags(false, false, false, true);
    let (p, _) = next_sync_step(SyncPhase::Reconciled(h), SyncEvent::StackLoaded { empty: false });
    let (_, step) = next_sync_step(p, SyncEvent::PlanMade { empty: true });
    assert_eq!(step, SyncStep::Push);
}

#[test]
fn base_updates_come_from_reparented_or_repaired() {
    let mut r = ReconcileResult::empty();
    assert!(!has_base_updates(&r));
    r.repaired.push(ReparentedBranch {
        name: s("b"),
        old_parent: s("a"),
        new_parent: s("main"),
        pr_number: Some(3),
    });
    assert!(has_base_updates(&r));
}

#[test]
fn log_base_checks_in_order() {
    let empty = Stack::new();
    assert_eq!(
        rung_cli::log::log_base(&empty, &s("x")),
        Err(s("No branches in stack. Use `rung create <name>` to add one."))
    );
    let stack = stack_of(&[("a", None, None), ("b", Some("a"), None)]);
    assert_eq!(rung_cli::log::log_base(&stack, &s("b")), Ok(s("a")));
    assert_eq!(rung_cli::log::log_base(&stack, &s("a")), Err(s("Branch 'a' has no parent branch")));
    assert_eq!(rung_cli::log::log_base(&stack, &s("z")), Err(s("Branch 'z' is not in stack")));
}
