use producer_core::registry::Registry;

#[test]
fn empty_registry_holds_nothing() {
    let mut registry: Registry<u32> = Registry::new();
    assert_eq!(registry.len(), 0);
    assert!(!registry.contains(0));
    assert_eq!(registry.remove(0), None);
    assert_eq!(registry.len(), 0);
}

#[test]
fn insert_then_remove_gives_the_value_back_once() {
    let mut registry = Registry::new();
    let a = registry.insert("a");
    let b = registry.insert("b");
    assert_ne!(a, b);
    assert_eq!(registry.len(), 2);
    assert!(registry.contains(a));
    assert!(registry.contains(b));
    assert_eq!(registry.remove(a), Some("a"));
    assert!(!registry.contains(a));
    assert_eq!(registry.remove(a), None);
    assert_eq!(registry.len(), 1);
    assert_eq!(registry.remove(b), Some("b"));
    assert_eq!(registry.len(), 0);
}

#[test]
fn freed_handles_are_used_again() {
    let mut registry = Registry::new();
    let handles: Vec<usize> = (0..5).map(|i: u32| registry.insert(i)).collect();
    assert_eq!(handles, vec![0, 1, 2, 3, 4]);
    assert_eq!(registry.remove(1), Some(1));
    assert_eq!(registry.remove(3), Some(3));
    assert_eq!(registry.insert(30), 3);
    assert_eq!(registry.insert(10), 1);
    assert_eq!(registry.insert(50), 5);
    assert_eq!(registry.len(), 6);
    assert_eq!(registry.remove(3), Some(30));
    assert_eq!(registry.remove(1), Some(10));
    assert_eq!(registry.remove(5), Some(50));
}

#[test]
fn handle_out_of_range_is_unknown() {
    let mut registry = Registry::new();
    registry.insert(1u8);
    assert!(!registry.contains(usize::MAX));
    assert_eq!(registry.remove(usize::MAX), None);
    assert_eq!(registry.len(), 1);
}
