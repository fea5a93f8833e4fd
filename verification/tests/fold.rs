use rung_cli::fold::{
    FoldBranchInfo, FoldConfig, FoldResult, FoldAnalysis, FoldOptions, FoldRequest, FoldChoice, FoldStackError,
    analyze_fold, fold_analysis, apply_fold_to_stack, prs_to_close, into_parent_config, include_children_config,
    specified_branches_config, chosen_children_config, fold_menu, fold_choice, children_options, fold_request,
    check_fold_blockers, fold_checkout_branch, require_fold_in_progress, print_fold_result, fold_dry_run_lines,
    fold_confirm_message,
};
use rung_cli::output::MessageKind;
use rung_cli::stack::{Stack, StackBranch};

fn stack_of(items: &[(&str, Option<&str>, Option<u64>)]) -> Stack {
    let mut stack = Stack::new();
    for (name, parent, pr) in items {
        let mut b = StackBranch::new(name.to_string(), parent.map(|p| p.to_string()));
        b.pr = *pr;
        stack.add_branch(b);
    }
    stack
}

fn linear_chain() -> Stack {
    stack_of(&[
        ("feature-a", Some("main"), None),
        ("feature-b", Some("feature-a"), Some(7)),
        ("feature-c", Some("feature-b"), Some(8)),
    ])
}

fn s(x: &str) -> String {
    x.to_string()
}

fn parent_of<'a>(stack: &'a Stack, name: &str) -> Option<&'a str> {
    stack.branches.iter().find(|b| b.name == name).and_then(|b| b.parent.as_deref())
}

#[test]
fn test_fold_branch_info() {
    let info = FoldBranchInfo { name: "feature/test".to_string(), commit_count: 3, pr: Some(42) };
    assert_eq!(info.name, "feature/test");
    assert_eq!(info.commit_count, 3);
    assert_eq!(info.pr, Some(42));
}

#[test]
fn test_fold_config() {
    let config = FoldConfig {
        target_branch: "feature/base".to_string(),
        branches_to_fold: vec!["feature/child".to_string()],
        new_parent: "main".to_string(),
    };
    assert_eq!(config.target_branch, "feature/base");
    assert_eq!(config.branches_to_fold.len(), 1);
}

#[test]
fn test_fold_result() {
    let result = FoldResult {
        target_branch: "feature/combined".to_string(),
        total_commits: 5,
        branches_folded: vec!["feature/a".to_string(), "feature/b".to_string()],
        prs_to_close: vec![42, 43],
    };
    assert_eq!(result.total_commits, 5);
    assert_eq!(result.branches_folded.len(), 2);
    assert_eq!(result.prs_to_close.len(), 2);
}

#[test]
fn test_analyze_linear_chain() {
    let stack = linear_chain();
    let (parent, chain) = analyze_fold(&stack, &s("feature-a")).unwrap();
    let analysis = fold_analysis(parent, &chain, &vec![1, 1]);
    assert_eq!(analysis.parent_branch.as_deref(), Some("main"));
    assert_eq!(analysis.children.len(), 2);
    assert_eq!(analysis.children[0].name, "feature-b");
    assert_eq!(analysis.children[0].commit_count, 1);
    assert_eq!(analysis.children[0].pr, Some(7));
    assert_eq!(analysis.children[1].name, "feature-c");
    assert_eq!(analysis.children[1].pr, Some(8));
}

#[test]
fn test_analyze_stops_at_branching() {
    let stack = stack_of(&[
        ("feature-a", Some("main"), None),
        ("feature-b", Some("feature-a"), None),
        ("feature-c", Some("feature-a"), None),
    ]);
    let (_, chain) = analyze_fold(&stack, &s("feature-a")).unwrap();
    assert!(chain.is_empty());
}

#[test]
fn fold_test_analyze_branch_not_found() {
    let stack = Stack::new();
    assert!(analyze_fold(&stack, &s("does-not-exist")).is_err());
}

fn fold_config(target: &str, fold: &[&str], new_parent: &str) -> FoldConfig {
    FoldConfig { target_branch: s(target), branches_to_fold: fold.iter().map(|x| s(x)).collect(), new_parent: s(new_parent) }
}

#[test]
fn test_execute_fold_child_into_parent() {
    let mut stack = stack_of(&[("feature-a", Some("main"), None), ("feature-b", Some("feature-a"), Some(7))]);
    let config = fold_config("feature-a", &["feature-b"], "main");
    let prs = prs_to_close(&stack, &config.branches_to_fold);
    assert!(apply_fold_to_stack(&mut stack, &config).is_ok());
    assert_eq!(prs, vec![7]);
    assert!(stack.branches.iter().all(|b| b.name != "feature-b"));
    assert!(stack.branches.iter().any(|b| b.name == "feature-a"));
}

#[test]
fn test_execute_fold_reparents_grandchildren() {
    let mut stack = linear_chain();
    let config = fold_config("feature-a", &["feature-b"], "main");
    apply_fold_to_stack(&mut stack, &config).unwrap();
    assert!(stack.branches.iter().all(|b| b.name != "feature-b"));
    assert_eq!(parent_of(&stack, "feature-c"), Some("feature-a"));
}

#[test]
fn test_execute_fold_multiple_children() {
    let mut stack = linear_chain();
    let config = fold_config("feature-a", &["feature-b", "feature-c"], "main");
    let prs = prs_to_close(&stack, &config.branches_to_fold);
    apply_fold_to_stack(&mut stack, &config).unwrap();
    assert_eq!(prs, vec![7, 8]);
    assert_eq!(stack.branches.len(), 1);
    assert_eq!(stack.branches[0].name, "feature-a");
    assert_eq!(stack.branches[0].parent.as_deref(), Some("main"));
}

#[test]
fn test_execute_empty_branches_errors() {
    let mut stack = stack_of(&[("feature-a", Some("main"), None)]);
    let config = fold_config("feature-a", &[], "main");
    assert!(matches!(apply_fold_to_stack(&mut stack, &config), Err(FoldStackError::NothingToFold)));
    assert_eq!(stack.branches.len(), 1);
}

#[test]
fn test_abort_no_fold_in_progress() {
    assert_eq!(require_fold_in_progress(false), Err(s("No fold in progress")));
    assert!(require_fold_in_progress(true).is_ok());
}

#[test]
fn fold_target_missing_is_an_error() {
    let mut stack = stack_of(&[("feature-b", Some("main"), None)]);
    let config = fold_config("ghost", &["feature-b"], "main");
    assert!(matches!(apply_fold_to_stack(&mut stack, &config), Err(FoldStackError::Stack(_))));
    assert_eq!(stack.branches.len(), 1);
}

#[test]
fn into_parent_and_children_configs() {
    let stack = linear_chain();
    let (parent, chain) = analyze_fold(&stack, &s("feature-b")).unwrap();
    let analysis = fold_analysis(parent, &chain, &vec![2]);
    let c = into_parent_config(&analysis, &stack, &s("feature-b"), &s("main")).unwrap();
    assert_eq!(c.target_branch, "feature-a");
    assert_eq!(c.branches_to_fold, vec![s("feature-b")]);
    assert_eq!(c.new_parent, "main");
    let c = include_children_config(&analysis, &s("feature-b"), &s("main")).unwrap();
    assert_eq!(c.target_branch, "feature-b");
    assert_eq!(c.branches_to_fold, vec![s("feature-c")]);
    assert_eq!(c.new_parent, "feature-a");

    let empty = FoldAnalysis { parent_branch: None, children: vec![] };
    assert_eq!(
        into_parent_config(&empty, &stack, &s("x"), &s("main")).unwrap_err(),
        "Current branch has no parent in the stack"
    );
    assert_eq!(
        include_children_config(&empty, &s("x"), &s("main")).unwrap_err(),
        "Current branch has no children to fold"
    );
    let orphan = FoldAnalysis { parent_branch: Some(s("gone")), children: vec![] };
    assert_eq!(
        into_parent_config(&orphan, &stack, &s("x"), &s("main")).unwrap_err(),
        "Parent branch not found in stack"
    );
}

#[test]
fn specified_branches_form_a_chain() {
    let stack = linear_chain();
    let c = specified_branches_config(&stack, &vec![s("feature-c"), s("feature-a"), s("feature-b")], &s("main")).unwrap();
    assert_eq!(c.target_branch, "feature-a");
    assert_eq!(c.branches_to_fold, vec![s("feature-b"), s("feature-c")]);
    assert_eq!(c.new_parent, "main");
}

#[test]
fn specified_branches_errors() {
    let stack = linear_chain();
    assert_eq!(
        specified_branches_config(&stack, &vec![s("feature-a")], &s("main")).unwrap_err(),
        "At least two branches must be specified for folding"
    );
    assert_eq!(
        specified_branches_config(&stack, &vec![s("feature-a"), s("nope")], &s("main")).unwrap_err(),
        "Branch 'nope' not found in stack"
    );
    assert_eq!(
        specified_branches_config(&stack, &vec![s("feature-a"), s("feature-c")], &s("main")).unwrap_err(),
        "Branches must form a single parent-child chain"
    );
    let forked = stack_of(&[
        ("a", Some("main"), None),
        ("b", Some("a"), None),
        ("c", Some("a"), None),
    ]);
    assert_eq!(
        specified_branches_config(&forked, &vec![s("a"), s("b"), s("c")], &s("main")).unwrap_err(),
        "Branches must form a linear chain (no branching)"
    );
    let cyc = stack_of(&[("x", Some("y"), None), ("y", Some("x"), None)]);
    assert_eq!(
        specified_branches_config(&cyc, &vec![s("x"), s("y")], &s("main")).unwrap_err(),
        "Could not determine root of branch chain"
    );
}

#[test]
fn fold_menu_and_choice() {
    let analysis = FoldAnalysis {
        parent_branch: Some(s("main")),
        children: vec![
            FoldBranchInfo { name: s("b"), commit_count: 1, pr: None },
            FoldBranchInfo { name: s("c"), commit_count: 2, pr: None },
        ],
    };
    let menu = fold_menu(&analysis, &s("a")).unwrap();
    assert_eq!(
        menu,
        vec![s("Fold into parent (merge a into parent)"), s("Fold children (b, c) into a"), s("Cancel")]
    );
    assert_eq!(fold_choice(&menu[0]), Some(FoldChoice::IntoParent));
    assert_eq!(fold_choice(&menu[1]), Some(FoldChoice::Children));
    assert_eq!(fold_choice(&menu[2]), None);
    assert_eq!(children_options(&analysis), vec![s("b (1 commits)"), s("c (2 commits)")]);
    let c = chosen_children_config(&analysis, &s("a"), &vec![1], &s("main")).unwrap();
    assert_eq!(c.branches_to_fold, vec![s("c")]);
    assert!(chosen_children_config(&analysis, &s("a"), &vec![], &s("main")).is_none());
    let none = FoldAnalysis { parent_branch: None, children: vec![] };
    assert_eq!(
        fold_menu(&none, &s("a")).unwrap_err(),
        "No branches available to fold (need parent or children in stack)"
    );
}

#[test]
fn fold_request_precedence() {
    let mut opts = FoldOptions {
        dry_run: false,
        abort: false,
        json: false,
        into_parent: true,
        include_children: true,
        branches: vec![s("x")],
    };
    assert_eq!(fold_request(&opts), FoldRequest::IntoParent);
    opts.into_parent = false;
    assert_eq!(fold_request(&opts), FoldRequest::IncludeChildren);
    opts.include_children = false;
    assert_eq!(fold_request(&opts), FoldRequest::Specified);
    opts.branches.clear();
    assert_eq!(fold_request(&opts), FoldRequest::Interactive);
}

#[test]
fn fold_blockers_and_checkout() {
    assert!(check_fold_blockers(false, false, false, false).is_ok());
    assert_eq!(
        check_fold_blockers(false, false, true, true).unwrap_err(),
        "A restack is in progress. Complete or abort it first."
    );
    let config = fold_config("a", &["b"], "main");
    assert_eq!(fold_checkout_branch(&config, &s("b"), true), "a");
    assert_eq!(fold_checkout_branch(&config, &s("z"), true), "z");
    assert_eq!(fold_checkout_branch(&config, &s("z"), false), "a");
}

#[test]
fn fold_output_lines() {
    let result = FoldResult {
        target_branch: s("a"),
        total_commits: 3,
        branches_folded: vec![s("b"), s("c")],
        prs_to_close: vec![7, 8],
    };
    let lines = print_fold_result(&result);
    assert_eq!(lines[0], (MessageKind::Success, s("Folded 2 branch(es) into 'a' (3 commits)")));
    assert_eq!(lines[1], (MessageKind::Detail, s("  • removed b")));
    assert_eq!(lines[3], (MessageKind::Info, s("PRs to close: #7, #8")));
    assert_eq!(lines.len(), 5);
    let config = fold_config("a", &["b", "c"], "main");
    let dry = fold_dry_run_lines(&config);
    assert_eq!(dry[0].1, "Would fold 2 branch(es) into 'a'");
    assert_eq!(dry[3].1, "  c");
    assert_eq!(fold_confirm_message(&config), "Will fold [b, c] into 'a'");
}
