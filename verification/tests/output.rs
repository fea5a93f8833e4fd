use colored::Colorize;
use rung_cli::output::{branch_name, pr_ref, Output, PrStatus, MessageKind, message_line, rule_line};

#[test]
fn test_branch_name_current() {
    let name = branch_name("feature/test", true);
    assert!(name.contains("feature/test"));
    assert!(name.contains('▶'));
}

#[test]
fn test_branch_name_not_current() {
    let name = branch_name("feature/test", false);
    assert!(name.contains("feature/test"));
    assert!(!name.contains('▶'));
}

#[test]
fn test_pr_ref_some() {
    let pr = pr_ref(Some(123), None);
    assert!(pr.contains("123"));
    assert!(pr.contains('#'));
}

#[test]
fn test_pr_ref_none() {
    let pr = pr_ref(None, None);
    assert!(pr.is_empty());
}

#[test]
fn test_quiet_mode_default() {
    let mut out = Output::new();
    out.set_quiet(false);
    assert!(!out.is_quiet());
}

#[test]
fn test_quiet_mode_enabled() {
    let mut out = Output::new();
    out.set_quiet(true);
    assert!(out.is_quiet());
    out.set_quiet(false);
}

#[test]
fn pr_ref_colors_match_status() {
    colored::control::set_override(true);

    let text = "#42";
    assert_eq!(pr_ref(None, Some(PrStatus::Open)), "");
    assert_eq!(pr_ref(Some(42), Some(PrStatus::Open)), text);
    assert_eq!(pr_ref(Some(42), Some(PrStatus::Draft)), text.yellow().to_string());
    assert_eq!(pr_ref(Some(42), Some(PrStatus::Merged)), text.green().to_string());
    assert_eq!(pr_ref(Some(42), Some(PrStatus::Closed)), text.red().to_string());
    assert_eq!(pr_ref(Some(42), None), text.dimmed().to_string());

    colored::control::set_override(false);
}

#[test]
fn quiet_mode_keeps_errors_and_warnings() {
    let mut out = Output::new();
    assert!(out.shows(MessageKind::Info));
    out.set_quiet(true);
    assert!(!out.shows(MessageKind::Info));
    assert!(!out.shows(MessageKind::Success));
    assert!(!out.shows(MessageKind::Detail));
    assert!(!out.shows(MessageKind::Rule));
    assert!(out.shows(MessageKind::Error));
    assert!(out.shows(MessageKind::Warn));
    assert!(out.shows(MessageKind::Essential));
    assert!(out.shows(MessageKind::ErrorText));
}

#[test]
fn message_line_plain_kinds() {
    assert_eq!(message_line(MessageKind::Detail, "  detail"), "  detail");
    assert_eq!(message_line(MessageKind::Essential, "https://x"), "https://x");
    colored::control::set_override(false);
    assert_eq!(message_line(MessageKind::Success, "done"), "✓ done");
    assert_eq!(message_line(MessageKind::Warn, "careful"), "! careful");
    assert_eq!(message_line(MessageKind::Info, "note"), "→ note");
    assert_eq!(message_line(MessageKind::Error, "bad"), "✗ bad");
}

#[test]
fn rule_is_fifty_bars() {
    colored::control::set_override(false);
    assert_eq!(rule_line(), "─".repeat(50));
}
