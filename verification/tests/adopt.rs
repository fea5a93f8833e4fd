use rung_cli::adopt::{AdoptResult, adopt_branch, validate_parent, parent_choices, adopt_report, only_choice};
use rung_cli::output::MessageKind;
use rung_cli::stack::{Stack, StackBranch};

#[test]
fn test_adopt_result_fields() {
    let result = AdoptResult {
        branch_name: "feature/existing".to_string(),
        parent_name: "main".to_string(),
        stack_depth: 1,
    };

    assert_eq!(result.branch_name, "feature/existing");
    assert_eq!(result.parent_name, "main");
    assert_eq!(result.stack_depth, 1);
}

#[test]
fn test_adopt_result_nested() {
    let result = AdoptResult {
        branch_name: "feature/child".to_string(),
        parent_name: "feature/parent".to_string(),
        stack_depth: 3,
    };

    assert_eq!(result.stack_depth, 3);
    assert_eq!(result.parent_name, "feature/parent");
}

#[test]
fn test_adopt_result_debug_impl() {
    let result = AdoptResult {
        branch_name: "test".to_string(),
        parent_name: "main".to_string(),
        stack_depth: 1,
    };
    let debug_str = format!("{result:?}");
    assert!(debug_str.contains("test"));
    assert!(debug_str.contains("main"));
}

#[test]
fn test_adopt_result_root_level() {
    let result = AdoptResult {
        branch_name: "feature/new".to_string(),
        parent_name: "main".to_string(),
        stack_depth: 1,
    };

    assert_eq!(result.stack_depth, 1);
}

#[test]
fn test_adopt_result_deep_stack() {
    let result = AdoptResult {
        branch_name: "feature/deep".to_string(),
        parent_name: "feature/level4".to_string(),
        stack_depth: 5,
    };

    assert_eq!(result.stack_depth, 5);
}

#[test]
fn test_adopt_result_special_branch_names() {
    let result = AdoptResult {
        branch_name: "fix/issue-123".to_string(),
        parent_name: "hotfix/urgent".to_string(),
        stack_depth: 2,
    };

    assert_eq!(result.branch_name, "fix/issue-123");
    assert_eq!(result.parent_name, "hotfix/urgent");
}

fn stack_of(items: &[(&str, Option<&str>)]) -> Stack {
    let mut stack = Stack::new();
    for (name, parent) in items {
        stack.add_branch(StackBranch::new(name.to_string(), parent.map(|p| p.to_string())));
    }
    stack
}

#[test]
fn adopt_onto_base_has_no_parent_and_depth_one() {
    let mut stack = Stack::new();
    let r = adopt_branch(&mut stack, &"main".to_string(), &"feature/a".to_string(), &"main".to_string(), true).unwrap();
    assert_eq!(r.stack_depth, 1);
    assert_eq!(stack.branches.len(), 1);
    assert!(stack.branches[0].parent.is_none());
}

#[test]
fn adopt_onto_stack_branch_counts_depth() {
    let mut stack = stack_of(&[("a", None), ("b", Some("a"))]);
    let r = adopt_branch(&mut stack, &"main".to_string(), &"c".to_string(), &"b".to_string(), true).unwrap();
    assert_eq!(r.stack_depth, 3);
    assert_eq!(stack.branches[2].parent.as_deref(), Some("b"));
    assert_eq!(
        adopt_report(&r).iter().map(|(k, m)| (*k, m.clone())).collect::<Vec<_>>(),
        vec![
            (MessageKind::Success, "Adopted branch 'c' with parent 'b'".to_string()),
            (MessageKind::Info, "Stack depth: 3".to_string()),
        ]
    );
}

#[test]
fn adopt_refuses_branch_already_in_stack() {
    let mut stack = stack_of(&[("a", None)]);
    let e = adopt_branch(&mut stack, &"main".to_string(), &"a".to_string(), &"main".to_string(), true).unwrap_err();
    assert_eq!(e, "Branch 'a' is already in the stack");
    assert_eq!(stack.branches.len(), 1);
}

#[test]
fn validate_parent_errors() {
    let stack = stack_of(&[("a", None)]);
    let main = "main".to_string();
    assert!(validate_parent(&stack, &main, &"main".to_string(), false).is_ok());
    assert!(validate_parent(&stack, &main, &"a".to_string(), false).is_ok());
    assert_eq!(
        validate_parent(&stack, &main, &"ghost".to_string(), false).unwrap_err(),
        "Parent branch 'ghost' does not exist"
    );
    assert_eq!(
        validate_parent(&stack, &main, &"other".to_string(), true).unwrap_err(),
        "Parent branch 'other' is not in the stack. Add it first with `rung adopt other` or use the base branch 'main'"
    );
}

#[test]
fn parent_choices_start_with_base() {
    let stack = stack_of(&[("a", None), ("b", Some("a"))]);
    let c = parent_choices(&stack, &"main".to_string());
    assert_eq!(c, vec!["main".to_string(), "a".to_string(), "b".to_string()]);
    assert_eq!(only_choice(&c), None);
    assert_eq!(only_choice(&vec!["main".to_string()]), Some("main".to_string()));
}
