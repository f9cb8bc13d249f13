use guest_bridge::handle_map::{HandleMap, RegisterError};

#[test]
fn registered_handle_resolves_both_ways() {
    let mut map = HandleMap::new();
    assert_eq!(map.register(0x1000, 77), Ok(()));
    assert_eq!(map.resource(0x1000), Some(77));
    assert_eq!(map.handle(77), Some(0x1000));
    assert!(map.contains_handle(0x1000));
    assert!(map.contains_resource(77));
    assert_eq!(map.len(), 1);
}

#[test]
fn unknown_handle_and_resource_are_reported() {
    let mut map = HandleMap::new();
    map.register(0x1000, 77).unwrap();
    assert_eq!(map.resource(0x1010), None);
    assert_eq!(map.handle(78), None);
    assert!(!map.contains_handle(0x1010));
    assert!(!map.contains_resource(78));
}

#[test]
fn neither_side_can_be_registered_twice() {
    let mut map = HandleMap::new();
    map.register(0x1000, 77).unwrap();
    assert_eq!(map.register(0x1000, 78), Err(RegisterError::HandleInUse));
    assert_eq!(map.register(0x1010, 77), Err(RegisterError::ResourceInUse));
    assert_eq!(map.register(0x1000, 77), Err(RegisterError::HandleInUse));
    assert_eq!(map.len(), 1);
    assert_eq!(map.resource(0x1000), Some(77));
    assert_eq!(map.handle(77), Some(0x1000));
    assert_eq!(map.handle(78), None);
}

#[test]
fn a_handle_stands_for_its_resource_only() {
    let mut map = HandleMap::new();
    map.register(0x1000, 1).unwrap();
    map.register(0x1010, 2).unwrap();
    map.register(0x1020, 3).unwrap();
    assert_eq!(map.resource(0x1000), Some(1));
    assert_eq!(map.resource(0x1010), Some(2));
    assert_eq!(map.resource(0x1020), Some(3));
    assert_eq!(map.handle(1), Some(0x1000));
    assert_eq!(map.handle(2), Some(0x1010));
    assert_eq!(map.handle(3), Some(0x1020));
}

#[test]
fn lookups_after_removal_are_detected() {
    let mut map = HandleMap::new();
    map.register(0x1000, 1).unwrap();
    map.register(0x1010, 2).unwrap();
    assert_eq!(map.remove(0x1000), Some(1));
    assert_eq!(map.resource(0x1000), None);
    assert_eq!(map.handle(1), None);
    assert_eq!(map.remove(0x1000), None);
    assert_eq!(map.resource(0x1010), Some(2));
    assert_eq!(map.handle(2), Some(0x1010));
    assert_eq!(map.len(), 1);
    // Both sides can be used again.
    assert_eq!(map.register(0x1000, 1), Ok(()));
    assert_eq!(map.register(0x1020, 1), Err(RegisterError::ResourceInUse));
}
