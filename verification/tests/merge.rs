use rung_cli::merge::{
    DescendantResult, MergeMethod, collect_descendants, parse_merge_method, merge_target, check_mergeable,
    merge_parent, child_pr_shifts, update_stack_after_merge, descendant_steps, descendant_result, count_rebased,
    relink_messages, descendant_lines,
};
use rung_cli::stack::{Stack, StackBranch};

fn stack_of(items: &[(&str, Option<&str>, Option<u64>)]) -> Stack {
    let mut stack = Stack::new();
    for (name, parent, pr) in items {
        let mut b = StackBranch::new(name.to_string(), parent.map(|p| p.to_string()));
        b.pr = *pr;
        stack.add_branch(b);
    }
    stack
}

fn s(x: &str) -> String {
    x.to_string()
}

#[test]
fn test_collect_descendants_empty() {
    let stack = Stack::new();
    assert!(collect_descendants(&stack, &s("main")).is_empty());
}

#[test]
fn test_descendant_result_creation() {
    let result = DescendantResult { branch: "feature/child".to_string(), rebased: true, pr_updated: false };
    assert_eq!(result.branch, "feature/child");
    assert!(result.rebased);
    assert!(!result.pr_updated);
}

#[test]
fn test_descendant_result_clone() {
    let result = DescendantResult { branch: "test".to_string(), rebased: true, pr_updated: true };
    let cloned = result.clone();
    assert_eq!(result.branch, cloned.branch);
    assert_eq!(result.rebased, cloned.rebased);
    assert_eq!(result.pr_updated, cloned.pr_updated);
}

#[test]
fn test_collect_descendants_single_child() {
    let stack = stack_of(&[("feature/parent", Some("main"), None), ("feature/child", Some("feature/parent"), None)]);
    let d = collect_descendants(&stack, &s("feature/parent"));
    assert_eq!(d.len(), 1);
    assert_eq!(d[0], "feature/child");
}

#[test]
fn test_collect_descendants_multiple_children() {
    let stack = stack_of(&[
        ("feature/parent", Some("main"), None),
        ("feature/child1", Some("feature/parent"), None),
        ("feature/child2", Some("feature/parent"), None),
    ]);
    let d = collect_descendants(&stack, &s("feature/parent"));
    assert_eq!(d.len(), 2);
    assert!(d.contains(&"feature/child1".to_string()));
    assert!(d.contains(&"feature/child2".to_string()));
}

#[test]
fn test_collect_descendants_nested_children() {
    let stack = stack_of(&[
        ("feature/parent", Some("main"), None),
        ("feature/child", Some("feature/parent"), None),
        ("feature/grandchild", Some("feature/child"), None),
    ]);
    let d = collect_descendants(&stack, &s("feature/parent"));
    assert_eq!(d.len(), 2);
    assert!(d.contains(&"feature/child".to_string()));
    assert!(d.contains(&"feature/grandchild".to_string()));
}

#[test]
fn test_collect_descendants_no_match() {
    let stack = Stack::new();
    assert!(collect_descendants(&stack, &s("nonexistent")).is_empty());
}

#[test]
fn test_collect_descendants_from_middle_of_chain() {
    let stack = stack_of(&[("level1", Some("main"), None), ("level2", Some("level1"), None), ("level3", Some("level2"), None)]);
    let d = collect_descendants(&stack, &s("level2"));
    assert_eq!(d.len(), 1);
    assert_eq!(d[0], "level3");
}

#[test]
fn test_collect_descendants_diamond_topology() {
    let stack = stack_of(&[("branch-a", Some("main"), None), ("branch-b", Some("branch-a"), None), ("branch-c", Some("branch-a"), None)]);
    let d = collect_descendants(&stack, &s("branch-a"));
    assert_eq!(d.len(), 2);
    assert!(d.contains(&"branch-b".to_string()));
    assert!(d.contains(&"branch-c".to_string()));
}

#[test]
fn test_descendant_result_all_fields_true() {
    let result = DescendantResult { branch: "all-true".to_string(), rebased: true, pr_updated: true };
    assert!(result.rebased);
    assert!(result.pr_updated);
}

#[test]
fn test_descendant_result_all_fields_false() {
    let result = DescendantResult { branch: "all-false".to_string(), rebased: false, pr_updated: false };
    assert!(!result.rebased);
    assert!(!result.pr_updated);
}

#[test]
fn descendants_come_parents_first() {
    let stack = stack_of(&[
        ("c", Some("b"), None),
        ("b", Some("a"), None),
        ("a", Some("main"), None),
    ]);
    let d = collect_descendants(&stack, &s("a"));
    assert_eq!(d, vec![s("b"), s("c")]);
}

#[test]
fn merge_methods() {
    assert_eq!(parse_merge_method("squash"), Ok(MergeMethod::Squash));
    assert_eq!(parse_merge_method("MERGE"), Ok(MergeMethod::Merge));
    assert_eq!(parse_merge_method("Rebase"), Ok(MergeMethod::Rebase));
    assert_eq!(
        parse_merge_method("fast"),
        Err(s("Invalid merge method: fast. Use squash, merge, or rebase."))
    );
}

#[test]
fn merge_target_and_checks() {
    let stack = stack_of(&[("a", Some("main"), Some(5)), ("b", Some("a"), None)]);
    assert_eq!(merge_target(&stack, &s("a")), Ok((5, Some(s("main")))));
    assert_eq!(
        merge_target(&stack, &s("b")),
        Err(s("No PR associated with branch 'b'. Run `rung submit` first."))
    );
    assert_eq!(merge_target(&stack, &s("z")), Err(s("Branch 'z' not in stack")));
    assert!(check_mergeable(5, Some(true), &None).is_ok());
    assert!(check_mergeable(5, None, &None).is_ok());
    assert_eq!(check_mergeable(5, Some(false), &None), Err(s("PR #5 is not mergeable. State: unknown")));
    assert_eq!(
        check_mergeable(7, Some(false), &Some(s("dirty"))),
        Err(s("PR #7 is not mergeable. State: dirty"))
    );
    assert_eq!(merge_parent(&Some(s("a")), &s("main")), "a");
    assert_eq!(merge_parent(&None, &s("main")), "main");
}

#[test]
fn merge_moves_children_and_records_merge() {
    let mut stack = stack_of(&[
        ("a", Some("main"), Some(1)),
        ("b", Some("a"), Some(2)),
        ("c", Some("a"), None),
        ("d", Some("b"), Some(4)),
    ]);
    let shifts = child_pr_shifts(&stack, &s("a"), &s("main"), &vec![s("b"), s("c"), s("d")]).unwrap();
    assert_eq!(shifts, vec![(2, s("a"))]);
    assert_eq!(relink_messages(&shifts, &s("main")), vec![s("Relinking PR #2 to 'main' before merge...")]);
    let steps = descendant_steps(&stack, &s("a"), &s("main"), &vec![s("b"), s("d")]).unwrap();
    assert_eq!(steps[0].new_base, "main");
    assert!(steps[0].base_from_remote);
    assert_eq!(steps[0].old_base, "a");
    assert_eq!(steps[0].pr_to_update, None);
    assert_eq!(steps[1].new_base, "b");
    assert!(!steps[1].base_from_remote);
    assert_eq!(steps[1].pr_to_update, Some(4));
    let results = vec![descendant_result(&steps[0], true), descendant_result(&steps[1], true)];
    assert!(!results[0].pr_updated);
    assert!(results[1].pr_updated);
    assert_eq!(count_rebased(&results), 2);
    assert_eq!(
        descendant_lines(&results),
        vec![s("  Rebased and pushed b"), s("  Rebased and pushed d"), s("  Updated PR base for d")]
    );

    let n = update_stack_after_merge(&mut stack, &s("a"), &s("main")).unwrap();
    assert_eq!(n, 2);
    assert_eq!(stack.branches.len(), 3);
    assert!(stack.branches.iter().all(|b| b.parent.as_deref() != Some("a")));
    assert_eq!(stack.merged.len(), 1);
    assert_eq!(stack.merged[0].name, "a");
}

#[test]
fn merge_of_last_branch_clears_history() {
    let mut stack = stack_of(&[("a", Some("main"), Some(1))]);
    assert_eq!(update_stack_after_merge(&mut stack, &s("a"), &s("main")), Ok(0));
    assert!(stack.branches.is_empty());
    assert!(stack.merged.is_empty());
}

#[test]
fn merge_without_pr_is_refused() {
    let mut stack = stack_of(&[("a", Some("main"), None)]);
    assert_eq!(
        update_stack_after_merge(&mut stack, &s("a"), &s("main")),
        Err(s("Branch 'a' missing from stack"))
    );
    assert!(child_pr_shifts(&stack, &s("a"), &s("main"), &vec![s("ghost")]).is_err());
}
