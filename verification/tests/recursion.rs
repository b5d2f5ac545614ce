use directive_validation::recursion::{
    RecursionLimitError, RecursionStack, DEFAULT_RECURSION_LIMIT,
};

fn name(text: &str) -> String {
    text.to_string()
}

#[test]
fn new_stack_is_empty() {
    let stack = RecursionStack::new();
    assert_eq!(stack.depth(), 0);
    assert_eq!(stack.limit(), DEFAULT_RECURSION_LIMIT);
    assert_eq!(stack.limit(), 32);
    assert_eq!(stack.first(), None);
    assert!(!stack.contains(&name("a")));
}

#[test]
fn pushed_names_are_on_the_path_until_popped() {
    let mut stack = RecursionStack::with_root(name("root"));
    assert_eq!(stack.push(&name("a")), Ok(()));
    assert_eq!(stack.push(&name("b")), Ok(()));
    assert_eq!(stack.depth(), 3);
    assert!(stack.contains(&name("root")));
    assert!(stack.contains(&name("a")));
    assert!(stack.contains(&name("b")));
    assert!(!stack.contains(&name("c")));
    assert_eq!(stack.first(), Some(&name("root")));

    stack.pop();
    assert!(!stack.contains(&name("b")));
    assert!(stack.contains(&name("a")));
    assert_eq!(stack.depth(), 2);

    assert_eq!(stack.push(&name("b")), Ok(()));
    assert!(stack.contains(&name("b")));
    stack.pop();
    stack.pop();
    assert_eq!(stack.depth(), 1);
    assert_eq!(stack.first(), Some(&name("root")));
    stack.pop();
    assert_eq!(stack.depth(), 0);
    assert_eq!(stack.first(), None);
    assert!(!stack.contains(&name("root")));
}

#[test]
fn popping_an_empty_stack_changes_nothing() {
    let mut stack = RecursionStack::new();
    stack.pop();
    assert_eq!(stack.depth(), 0);
    stack.leave();
    assert_eq!(stack.depth(), 0);
    assert_eq!(stack.push(&name("a")), Ok(()));
    assert_eq!(stack.depth(), 1);
}

#[test]
fn push_is_refused_at_the_limit_and_changes_nothing() {
    let mut stack = RecursionStack::with_root(name("n0"));
    for i in 1..32 {
        assert_eq!(stack.push(&format!("n{i}")), Ok(()));
    }
    assert_eq!(stack.depth(), 32);
    assert_eq!(stack.push(&name("one too many")), Err(RecursionLimitError {}));
    assert_eq!(stack.depth(), 32);
    assert!(!stack.contains(&name("one too many")));
    assert_eq!(stack.enter(), Err(RecursionLimitError {}));
    assert_eq!(stack.depth(), 32);
    stack.pop();
    assert_eq!(stack.push(&name("fits again")), Ok(()));
}

#[test]
fn nested_steps_count_towards_the_limit() {
    let mut stack = RecursionStack::with_root(name("root")).with_limit(3);
    assert_eq!(stack.limit(), 3);
    assert_eq!(stack.enter(), Ok(()));
    assert_eq!(stack.depth(), 2);
    assert_eq!(stack.push(&name("a")), Ok(()));
    assert_eq!(stack.depth(), 3);
    assert_eq!(stack.enter(), Err(RecursionLimitError {}));
    assert_eq!(stack.push(&name("b")), Err(RecursionLimitError {}));
    stack.leave();
    assert_eq!(stack.depth(), 2);
    assert!(stack.contains(&name("a")));
    assert_eq!(stack.enter(), Ok(()));
    stack.leave();
    stack.leave();
    stack.leave();
    assert_eq!(stack.depth(), 2);
}

#[test]
fn root_is_on_the_path_whatever_the_limit() {
    let mut stack = RecursionStack::with_root(name("root")).with_limit(0);
    assert_eq!(stack.depth(), 1);
    assert!(stack.contains(&name("root")));
    assert_eq!(stack.push(&name("a")), Err(RecursionLimitError {}));
    assert_eq!(stack.enter(), Err(RecursionLimitError {}));
    let mut stack = RecursionStack::with_root(name("root")).with_limit(1);
    assert_eq!(stack.push(&name("a")), Err(RecursionLimitError {}));
    let mut stack = RecursionStack::with_root(name("root")).with_limit(2);
    assert_eq!(stack.push(&name("a")), Ok(()));
    assert_eq!(stack.push(&name("b")), Err(RecursionLimitError {}));
}

#[test]
fn a_name_pushed_twice_is_on_the_path_until_both_are_popped() {
    let mut stack = RecursionStack::with_root(name("root"));
    assert_eq!(stack.push(&name("a")), Ok(()));
    assert_eq!(stack.push(&name("b")), Ok(()));
    assert_eq!(stack.push(&name("a")), Ok(()));
    assert_eq!(stack.push(&name("root")), Ok(()));
    assert_eq!(stack.depth(), 5);
    stack.pop();
    assert!(stack.contains(&name("root")));
    stack.pop();
    assert!(stack.contains(&name("a")));
    stack.pop();
    assert!(!stack.contains(&name("b")));
    assert!(stack.contains(&name("a")));
    stack.pop();
    assert!(!stack.contains(&name("a")));
    assert!(stack.contains(&name("root")));
    assert_eq!(stack.first(), Some(&name("root")));
    stack.pop();
    assert!(!stack.contains(&name("root")));
    assert_eq!(stack.depth(), 0);
}
