use rung_cli::navigate::{ambiguous_message, run_next, run_prev, switched_message, Navigation};
use rung_cli::stack::{Stack, StackBranch};

fn s(x: &str) -> String {
    x.to_string()
}

fn stack_of(items: &[(&str, Option<&str>)]) -> Stack {
    let mut stack = Stack::new();
    for (name, parent) in items {
        stack.add_branch(StackBranch::new(s(name), parent.map(s)));
    }
    stack
}

#[test]
fn next_goes_to_the_only_child() {
    let stack = stack_of(&[("a", Some("main")), ("b", Some("a"))]);
    match run_next(&stack, &s("a")) {
        Navigation::Switch(b) => assert_eq!(b, "b"),
        other => panic!("unexpected {other:?}"),
    }
}

#[test]
fn next_stays_without_children() {
    let stack = stack_of(&[("a", Some("main"))]);
    match run_next(&stack, &s("a")) {
        Navigation::Stay(m) => assert_eq!(m, "'a' has no children in the stack"),
        other => panic!("unexpected {other:?}"),
    }
}

#[test]
fn next_lists_several_children() {
    let stack = stack_of(&[("a", Some("main")), ("b", Some("a")), ("c", Some("a"))]);
    match run_next(&stack, &s("a")) {
        Navigation::Ambiguous(v) => assert_eq!(v, vec![s("b"), s("c")]),
        other => panic!("unexpected {other:?}"),
    }
    assert_eq!(ambiguous_message(&s("a")), "'a' has multiple children. Choose one:");
}

#[test]
fn prev_goes_to_the_parent() {
    let stack = stack_of(&[("a", Some("main")), ("b", Some("a"))]);
    match run_prev(&stack, &s("b")) {
        Navigation::Switch(p) => assert_eq!(p, "a"),
        other => panic!("unexpected {other:?}"),
    }
    assert_eq!(switched_message(&s("a")), "Switched to 'a'");
}

#[test]
fn prev_stays_at_a_root() {
    let stack = stack_of(&[("a", None)]);
    match run_prev(&stack, &s("a")) {
        Navigation::Stay(m) => assert_eq!(m, "'a' has no parent in the stack (it's a root branch)"),
        other => panic!("unexpected {other:?}"),
    }
}

#[test]
fn next_then_prev_comes_back() {
    let stack = stack_of(&[("a", Some("main")), ("b", Some("a")), ("c", Some("b"))]);
    let down = match run_next(&stack, &s("b")) {
        Navigation::Switch(x) => x,
        other => panic!("unexpected {other:?}"),
    };
    assert_eq!(down, "c");
    match run_prev(&stack, &down) {
        Navigation::Switch(p) => assert_eq!(p, "b"),
        other => panic!("unexpected {other:?}"),
    }
}
