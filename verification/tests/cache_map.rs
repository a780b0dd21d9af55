use grid::cache_map::CacheMap;

#[test]
fn empty_store_finds_nothing() {
    let mut store: CacheMap<u64, String> = CacheMap::new();
    assert!(store.peek(&0).is_none());
    assert!(store.peek(&7).is_none());
    assert!(store.get(0).is_none());
    assert!(store.get(7).is_none());
    assert!(store.peek(&7).is_none());
}

#[test]
fn created_entry_is_found_again() {
    let mut store: CacheMap<u64, String> = CacheMap::new();
    assert_eq!(store.get_mut_or_insert(3, || String::from("three")), "three");
    assert_eq!(store.peek(&3).map(|s| s.as_str()), Some("three"));
    assert_eq!(store.get(3).map(|s| s.as_str()), Some("three"));
    assert!(store.get(4).is_none());
    assert_eq!(store.peek(&3).map(|s| s.as_str()), Some("three"));
    assert_eq!(store.get(3).map(|s| s.as_str()), Some("three"));
}

#[test]
fn factory_runs_only_for_a_missing_key() {
    let mut store: CacheMap<u64, u32> = CacheMap::new();
    assert_eq!(*store.get_mut_or_insert(1, || 10), 10);
    assert_eq!(*store.get_mut_or_insert(1, || 11), 10);
    assert_eq!(*store.get_mut_or_insert(2, || 20), 20);
    assert_eq!(*store.get_mut_or_insert(1, || 12), 10);
    assert_eq!(*store.get_mut_or_insert(2, || 21), 20);
}

#[test]
fn default_key_can_be_created() {
    let mut store: CacheMap<u64, u32> = CacheMap::new();
    assert!(store.get(0).is_none());
    assert_eq!(*store.get_mut_or_insert(0, || 5), 5);
    assert_eq!(store.get(0), Some(&5));
    assert_eq!(store.get(1), None);
    assert_eq!(store.get(0), Some(&5));
}

#[test]
fn change_through_the_reference_stays() {
    let mut store: CacheMap<u64, u32> = CacheMap::new();
    *store.get_mut_or_insert(8, || 0) += 4;
    *store.get_mut_or_insert(9, || 0) += 5;
    *store.get_mut_or_insert(8, || 0) += 1;
    assert_eq!(store.peek(&8), Some(&5));
    assert_eq!(store.peek(&9), Some(&5));
    assert_eq!(store.get(8), Some(&5));
}

#[test]
fn every_entry_survives_any_order_of_accesses() {
    let mut store: CacheMap<u64, u64> = CacheMap::new();
    for k in 0..50u64 {
        *store.get_mut_or_insert(k * 7 % 50, || 0) = k * 7 % 50 + 1000;
    }
    for round in 0..5u64 {
        for k in 0..50u64 {
            let key = (k * 13 + round) % 50;
            assert_eq!(store.get(key), Some(&(key + 1000)));
            let other = (key + 25) % 50;
            assert_eq!(store.peek(&other), Some(&(other + 1000)));
        }
    }
    assert_eq!(store.get(50), None);
    for k in 0..50u64 {
        assert_eq!(store.peek(&k), Some(&(k + 1000)));
    }
}
