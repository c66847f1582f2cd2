use pycompiler::env::Env;

#[test]
fn one_level() {
    let mut env = Env::<i32>::new();
    env.insert("a".to_string(), 1);
    env.insert("b".to_string(), 2);
    env.insert("c".to_string(), 3);
    assert_eq!(env.depth(), 3);
    assert_eq!(env.lookup("a"), Some(&1));
    assert_eq!(env.lookup("b"), Some(&2));
    assert_eq!(env.lookup("c"), Some(&3));
}

#[test]
fn nest() {
    let mut env = Env::<i32>::new();
    env.insert("a".to_string(), 1);

    env.init_scope();
    env.insert("b".to_string(), 2);
    env.insert("a".to_string(), 3);

    env.init_scope();
    env.insert("a".to_string(), 4);
    assert_eq!(env.lookup("a"), Some(&4));
    env.exit_scope();

    assert_eq!(env.lookup("a"), Some(&3));
    assert_eq!(env.lookup("b"), Some(&2));
    env.exit_scope();

    assert_eq!(env.lookup("a"), Some(&1));
    assert_eq!(env.lookup("b"), None);
}

#[test]
fn update_changes_visible_binding() {
    let mut env = Env::<i32>::new();
    env.insert("x".to_string(), 1);
    env.init_scope();
    env.insert("x".to_string(), 2);
    env.update("x".to_string(), 5);
    assert_eq!(env.lookup("x"), Some(&5));
    assert!(env.contains("x"));
    assert!(!env.contains("y"));
    let popped = env.exit_scope();
    assert_eq!(popped.len(), 1);
    assert_eq!(popped[0].0, "x");
    assert_eq!(popped[0].1, 5);
    assert_eq!(env.lookup("x"), Some(&1));
    assert_eq!(env.level(), 0);
}
