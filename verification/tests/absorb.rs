use rung_cli::absorb::{
    absorb_done_lines, absorb_plan_lines, absorb_report, lex_less, sorted_targets, unmap_reason_text, AbsorbAction,
    UnmapReason, UnmappedHunk,
};
use rung_cli::init::init_messages;
use rung_cli::output::MessageKind;

fn s(x: &str) -> String {
    x.to_string()
}

fn action(file: &str, commit: &str, message: &str) -> AbsorbAction {
    AbsorbAction { file_path: s(file), target_commit: s(commit), target_message: s(message) }
}

#[test]
fn lex_order_of_ids() {
    assert!(lex_less(&s("abc"), &s("abd")));
    assert!(lex_less(&s("ab"), &s("abc")));
    assert!(!lex_less(&s("abc"), &s("abc")));
    assert!(!lex_less(&s("b"), &s("a")));
}

#[test]
fn targets_sorted_and_distinct() {
    let acts = vec![
        action("a.rs", "ffff0000aaaa", "Third"),
        action("b.rs", "0000111122223333", "First"),
        action("c.rs", "ffff0000aaaa", "Third"),
        action("d.rs", "8888", "Second"),
    ];
    assert_eq!(sorted_targets(&acts), vec![s("0000111122223333"), s("8888"), s("ffff0000aaaa")]);
}

#[test]
fn plan_grouped_by_commit() {
    let acts = vec![
        action("src/a.rs", "ffff0000aaaa", "Fix parser"),
        action("src/b.rs", "0000111122223333", "Add lexer"),
        action("src/c.rs", "ffff0000aaaa", "Fix parser"),
    ];
    assert_eq!(
        absorb_plan_lines(&acts),
        vec![
            s("  00001111 Add lexer (1 hunk(s))"),
            s("    → src/b.rs"),
            s("  ffff0000 Fix parser (2 hunk(s))"),
            s("    → src/a.rs"),
            s("    → src/c.rs"),
        ]
    );
}

#[test]
fn nothing_to_absorb() {
    let (lines, r) = absorb_report(&vec![], &vec![], false);
    assert_eq!(lines, vec![(MessageKind::Info, s("Staged changes present but no absorbable hunks found"))]);
    assert_eq!(r, Ok(false));
}

#[test]
fn only_unmapped_hunks_fail() {
    let unmapped = vec![
        UnmappedHunk { file_path: s("new.rs"), reason: UnmapReason::NewFile },
        UnmappedHunk { file_path: s("x.rs"), reason: UnmapReason::BlameError(s("boom")) },
    ];
    let (lines, r) = absorb_report(&vec![], &unmapped, false);
    assert_eq!(
        lines,
        vec![
            (MessageKind::Warn, s("2 hunk(s) could not be absorbed:")),
            (MessageKind::Detail, s("  new.rs (new file)")),
            (MessageKind::Detail, s("  x.rs (blame error: boom)")),
            (MessageKind::Detail, s("")),
        ]
    );
    assert_eq!(r, Err(s("All staged hunks could not be mapped to target commits")));
}

#[test]
fn dry_run_shows_plan_and_stops() {
    let acts = vec![action("a.rs", "1234567890", "Msg")];
    let (lines, r) = absorb_report(&acts, &vec![], true);
    assert_eq!(
        lines,
        vec![
            (MessageKind::Info, s("1 hunk(s) will be absorbed:")),
            (MessageKind::Detail, s("  12345678 Msg (1 hunk(s))")),
            (MessageKind::Detail, s("    → a.rs")),
            (MessageKind::Info, s("Dry run - no changes made")),
        ]
    );
    assert_eq!(r, Ok(false));
    let (_, r) = absorb_report(&acts, &vec![], false);
    assert_eq!(r, Ok(true));
}

#[test]
fn reasons_and_done_lines() {
    assert_eq!(unmap_reason_text(&UnmapReason::InsertOnly), "insert-only (no lines to blame)");
    assert_eq!(unmap_reason_text(&UnmapReason::MultipleCommits), "multiple commits touched these lines");
    assert_eq!(unmap_reason_text(&UnmapReason::CommitNotInStack), "target commit not in stack");
    assert_eq!(unmap_reason_text(&UnmapReason::CommitOnBaseBranch), "target commit already on base branch");
    assert_eq!(absorb_done_lines(0), vec![(MessageKind::Success, s("Created 0 fixup commit(s)"))]);
    assert_eq!(
        absorb_done_lines(3),
        vec![
            (MessageKind::Success, s("Created 3 fixup commit(s)")),
            (MessageKind::Info, s("Run `git rebase -i --autosquash` to apply the fixups")),
        ]
    );
}

#[test]
fn init_reports() {
    let (go, lines) = init_messages(true, &None, &s("/r/.git/rung"));
    assert!(!go);
    assert_eq!(lines, vec![(MessageKind::Warn, s("Rung is already initialized in this repository"))]);
    let (go, lines) = init_messages(false, &Some(s("main")), &s("/r/.git/rung"));
    assert!(go);
    assert_eq!(
        lines,
        vec![
            (MessageKind::Info, s("Detected default branch: main")),
            (MessageKind::Success, s("Initialized rung in this repository")),
            (MessageKind::Info, s("State stored in: /r/.git/rung")),
        ]
    );
    let (_, lines) = init_messages(false, &None, &s("d"));
    assert_eq!(lines[0].1, "Could not detect default branch, using \"main\" as fallback");
}
