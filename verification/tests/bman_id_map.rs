use nugs::bman::id_map::BmanIdMap;

#[test]
fn test_synthetic_id_is_negative() {
    let id = BmanIdMap::synthetic_id("1aK32Uxa56LK2DsQ4ZmgugA9FhoMrlZm7");
    assert!(id < 0, "Synthetic ID should be negative, got {}", id);
}

#[test]
fn test_insert_and_roundtrip() {
    let mut map = BmanIdMap::new();
    let drive_id = "abcdef123456";
    let synthetic = map.insert(drive_id);

    assert!(synthetic < 0);
    assert_eq!(map.get_drive_id(synthetic), Some(drive_id));
    assert_eq!(map.get_synthetic_id(drive_id), Some(synthetic));
}

#[test]
fn test_insert_idempotent() {
    let mut map = BmanIdMap::new();
    let id1 = map.insert("abc");
    let id2 = map.insert("abc");
    assert_eq!(id1, id2);
    assert_eq!(map.len(), 1);
}

#[test]
fn test_different_drive_ids_get_different_synthetics() {
    let mut map = BmanIdMap::new();
    let id1 = map.insert("folder_a");
    let id2 = map.insert("folder_b");
    assert_ne!(id1, id2);
    assert_eq!(map.len(), 2);
}

#[test]
fn synthetic_id_is_deterministic_and_matches_insert() {
    let a = BmanIdMap::synthetic_id("folder_x");
    let b = BmanIdMap::synthetic_id("folder_x");
    assert_eq!(a, b);
    let mut map = BmanIdMap::new();
    assert_eq!(map.insert("folder_x"), a);
}

#[test]
fn empty_map_lookups() {
    let map = BmanIdMap::new();
    assert!(map.is_empty());
    assert_eq!(map.len(), 0);
    assert_eq!(map.get_drive_id(-5), None);
    assert_eq!(map.get_synthetic_id("nothing"), None);
}

#[test]
fn many_inserts_stay_distinct_and_negative() {
    let mut map = BmanIdMap::new();
    let mut ids: Vec<i64> = Vec::new();
    for i in 0..200 {
        let name = format!("folder_{}", i);
        let id = map.insert(&name);
        assert!(id < 0);
        assert!(!ids.contains(&id));
        ids.push(id);
        assert_eq!(map.get_drive_id(id), Some(name.as_str()));
    }
    assert_eq!(map.len(), 200);
}
