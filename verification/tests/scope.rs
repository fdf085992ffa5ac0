use halberd::scope::Universe;

#[test]
fn lookup_after_insert_in_root() {
    let mut u: Universe<u32> = Universe::new();
    let root = u.root_scope_id();
    u.scope_insert(root, "a".to_string(), 1);
    assert_eq!(u.scope_lookup(root, "a"), Some(&1));
    assert_eq!(u.scope_lookup(root, "b"), None);
}

#[test]
fn subscope_inherits_and_shadows() {
    let mut u: Universe<u32> = Universe::new();
    let root = u.root_scope_id();
    u.scope_insert(root, "a".to_string(), 1);
    u.scope_insert(root, "b".to_string(), 2);
    let child = u.new_scope(root);
    assert_eq!(u.scope_lookup(child, "a"), Some(&1));
    u.scope_insert(child, "a".to_string(), 10);
    assert_eq!(u.scope_lookup(child, "a"), Some(&10));
    assert_eq!(u.scope_lookup(child, "b"), Some(&2));
    assert_eq!(u.scope_lookup(root, "a"), Some(&1));
}

#[test]
fn insert_replaces_in_same_scope() {
    let mut u: Universe<u32> = Universe::new();
    let root = u.root_scope_id();
    u.scope_insert(root, "a".to_string(), 1);
    u.scope_insert(root, "a".to_string(), 3);
    assert_eq!(u.scope_lookup(root, "a"), Some(&3));
}

#[test]
fn lookup_and_modify_changes_defining_scope() {
    let mut u: Universe<u32> = Universe::new();
    let root = u.root_scope_id();
    u.scope_insert(root, "a".to_string(), 1);
    let child = u.new_scope(root);
    let changed = u.scope_lookup_and_modify(child, "a", |x: &u32| *x + 41);
    assert!(changed);
    assert_eq!(u.scope_lookup(root, "a"), Some(&42));
    assert!(!u.scope_lookup_and_modify(child, "zz", |x: &u32| *x));
}

#[test]
fn scope_refs() {
    let mut u: Universe<u32> = Universe::new();
    {
        let mut r = u.root_scope_mut();
        r.insert("k".to_string(), 7);
        let sub = r.new_subscope();
        assert!(u.contains_scope(sub));
    }
    assert_eq!(u.root_scope().lookup("k"), Some(&7));
    let root = u.root_scope_id();
    assert_eq!(u.get_scope(root).lookup("k"), Some(&7));
    let mut m = u.get_scope_mut(root);
    assert!(m.lookup_and_modify("k", |x: &u32| *x * 2));
    assert_eq!(m.lookup("k"), Some(&14));
}

#[test]
fn map_keeps_structure() {
    let mut u: Universe<u32> = Universe::new();
    let root = u.root_scope_id();
    u.scope_insert(root, "a".to_string(), 2);
    let child = u.new_scope(root);
    u.scope_insert(child, "b".to_string(), 3);
    let v = u.map(|x: u32| x as u64 * 100);
    assert_eq!(v.scope_lookup(child, "a"), Some(&200));
    assert_eq!(v.scope_lookup(child, "b"), Some(&300));
}

#[test]
fn handles_change_the_universe_they_borrow() {
    let mut u: Universe<u32> = Universe::new();
    let child = u.root_scope_mut().new_subscope();
    u.get_scope_mut(child).insert("x".to_string(), 4);
    assert_eq!(u.scope_lookup(child, "x"), Some(&4));
    assert!(u.get_scope_mut(child).lookup_and_modify("x", |v: &u32| v + 1));
    assert_eq!(u.scope_lookup(child, "x"), Some(&5));
    assert!(!u.get_scope_mut(child).lookup_and_modify("y", |v: &u32| v + 1));
    assert_eq!(u.scope_lookup(u.root_scope_id(), "x"), None);
}
