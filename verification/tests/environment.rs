use rlox::environment::Environments;
use rlox::span::Location;

#[test]
fn define_then_get() {
    let mut envs: Environments<i64> = Environments::new();
    let global = envs.new_env(None);
    envs.define(global, "a", 1);
    assert_eq!(envs.get_at(global, 0, "a"), Some(&1));
    assert_eq!(envs.get_at(global, 0, "b"), None);
}

#[test]
fn lookup_follows_the_chain_exactly() {
    let mut envs: Environments<i64> = Environments::new();
    let global = envs.new_env(None);
    let inner = envs.new_env(Some(global));
    envs.define(global, "a", 1);
    envs.define(inner, "a", 2);
    assert_eq!(envs.get_at(inner, 0, "a"), Some(&2));
    assert_eq!(envs.get_at(inner, 1, "a"), Some(&1));
    assert_eq!(envs.ancestor_of(inner, 1), Some(global));
    assert_eq!(envs.ancestor_of(inner, 2), None);
}

#[test]
fn assign_updates_only_the_environment_at_the_distance() {
    let mut envs: Environments<i64> = Environments::new();
    let global = envs.new_env(None);
    let inner = envs.new_env(Some(global));
    envs.define(global, "a", 1);
    envs.define(inner, "a", 2);
    assert!(envs.assign_at(inner, 1, "a", 10));
    assert_eq!(envs.get_at(global, 0, "a"), Some(&10));
    assert_eq!(envs.get_at(inner, 0, "a"), Some(&2));
}

#[test]
fn assign_to_an_unbound_name_fails() {
    let mut envs: Environments<i64> = Environments::new();
    let global = envs.new_env(None);
    assert!(!envs.assign_at(global, 0, "missing", 3));
    assert_eq!(envs.get_at(global, 0, "missing"), None);
    assert_eq!(envs.len(), 1);
}

#[test]
fn redefining_replaces_the_binding() {
    let mut envs: Environments<i64> = Environments::new();
    let global = envs.new_env(None);
    envs.define(global, "a", 1);
    envs.define(global, "b", 2);
    envs.define(global, "a", 3);
    assert_eq!(envs.get_at(global, 0, "a"), Some(&3));
    assert_eq!(envs.get_at(global, 0, "b"), Some(&2));
    assert!(envs.assign_at(global, 0, "a", 4));
    assert_eq!(envs.get_at(global, 0, "a"), Some(&4));
}

#[test]
fn truncate_drops_the_newest_environments() {
    let mut envs: Environments<i64> = Environments::new();
    let global = envs.new_env(None);
    envs.define(global, "a", 1);
    let block = envs.new_env(Some(global));
    envs.define(block, "b", 2);
    assert_eq!(envs.len(), 2);
    envs.truncate(1);
    assert_eq!(envs.len(), 1);
    assert_eq!(envs.get_at(global, 0, "a"), Some(&1));
    assert_eq!(envs.ancestor_of(block, 0), None);
    let again = envs.new_env(Some(global));
    assert_eq!(again, block);
    assert_eq!(envs.get_at(again, 0, "b"), None);
}

#[test]
fn a_call_binds_each_parameter_to_its_argument() {
    let mut envs: Environments<i64> = Environments::new();
    let global = envs.new_env(None);
    envs.define(global, "a", 0);
    let params = vec![
        ("a".to_string(), Location { line: 1, col: 7 }),
        ("b".to_string(), Location { line: 1, col: 10 }),
    ];
    let frame = envs.bind_call(global, &params, vec![10, 20]);
    assert_eq!(frame, 1);
    assert_eq!(envs.get_at(frame, 0, "a"), Some(&10));
    assert_eq!(envs.get_at(frame, 0, "b"), Some(&20));
    assert_eq!(envs.get_at(frame, 1, "a"), Some(&0));
    assert_eq!(envs.ancestor_of(frame, 1), Some(global));
}
