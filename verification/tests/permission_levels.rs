use santa_cruz::permissions::PermissionMap;

#[test]
fn creator_becomes_owner() {
    let map = PermissionMap::owner(42);
    assert_eq!(map.level_of(42), 2);
    assert!(map.read_allowed(42));
    assert!(map.write_allowed(42));
}

#[test]
fn unlisted_principal_sees_nothing() {
    let map = PermissionMap::owner(42);
    assert_eq!(map.level_of(7), 0);
    assert!(!map.read_allowed(7));
    assert!(!map.write_allowed(7));
}

#[test]
fn sentinel_grants_default_read_but_not_write() {
    let mut map = PermissionMap::owner(42);
    map.grant(0, 1);
    assert!(map.read_allowed(7));
    assert!(!map.write_allowed(7));
    assert!(map.write_allowed(42));
}

#[test]
fn later_grant_overrides_earlier_level() {
    let mut map = PermissionMap::owner(42);
    map.grant(42, 0);
    assert_eq!(map.level_of(42), 0);
    assert!(!map.read_allowed(42));
    assert!(!map.write_allowed(42));
}

#[test]
fn empty_map_denies_everyone() {
    let map = PermissionMap::empty();
    assert_eq!(map.level_of(0), 0);
    assert!(!map.read_allowed(1));
    assert!(!map.write_allowed(1));
}

#[test]
fn read_level_allows_read_only() {
    let mut map = PermissionMap::empty();
    map.grant(9, 1);
    assert!(map.read_allowed(9));
    assert!(!map.write_allowed(9));
}
