use santa_cruz::sessions_cache::SessionsCache;

#[test]
fn insert_get_remove_round_trip() {
    let mut cache = SessionsCache::default();
    cache.insert("tok1".to_string(), 7);
    assert_eq!(cache.get("tok1".to_string()), Some(7));
    cache.remove("tok1".to_string());
    assert_eq!(cache.get("tok1".to_string()), None);
}

#[test]
fn insert_overwrites_existing_token() {
    let mut cache = SessionsCache::default();
    cache.insert("tok".to_string(), 1);
    cache.insert("tok".to_string(), 2);
    assert_eq!(cache.get("tok".to_string()), Some(2));
}

#[test]
fn remove_of_absent_token_is_no_error() {
    let mut cache = SessionsCache::default();
    cache.insert("a".to_string(), 1);
    cache.remove("missing".to_string());
    assert_eq!(cache.get("a".to_string()), Some(1));
    assert_eq!(cache.get("missing".to_string()), None);
}

#[test]
fn hydrate_bulk_loads_rows() {
    let mut cache = SessionsCache::default();
    cache.hydrate(vec![
        ("alpha".to_string(), 1),
        ("beta".to_string(), 2),
        ("alpha".to_string(), 3),
    ]);
    assert_eq!(cache.get("alpha".to_string()), Some(3));
    assert_eq!(cache.get("beta".to_string()), Some(2));
    assert_eq!(cache.get("gamma".to_string()), None);
}
