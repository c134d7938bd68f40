use dipspp::cache_util::{InnerCache, DEFAULT_PURGE_AFTER_MS};

#[test]
fn new_cache_is_empty() {
    let c: InnerCache<u32> = InnerCache::new(1000);
    assert!(c.map.is_empty());
    assert_eq!(c.last_scanned, 1000);
    assert_eq!(c.purge_after, DEFAULT_PURGE_AFTER_MS);
    assert_eq!(DEFAULT_PURGE_AFTER_MS, 600_000);
}

#[test]
fn recorded_value_is_served_while_fresh() {
    let mut c: InnerCache<u32> = InnerCache::new(0);
    let key = "map-a".to_string();
    assert!(c.fresh_value(&key, 9000, 10).is_none());
    assert_eq!(c.record_fresh(key.clone(), 7, 100), 0);
    assert_eq!(c.fresh_value(&key, 9000, 100), Some((0, &7)));
    assert_eq!(c.fresh_value(&key, 9000, 9099), Some((8999, &7)));
    // the entry is stale once ttl has passed since the last refresh
    assert!(c.fresh_value(&key, 9000, 9100).is_none());
    assert!(c.fresh_value(&"map-b".to_string(), 9000, 100).is_none());
}

#[test]
fn refresh_with_equal_value_keeps_age() {
    let mut c: InnerCache<u32> = InnerCache::new(0);
    let key = "k".to_string();
    c.record_fresh(key.clone(), 5, 1000);
    assert_eq!(c.record_fresh(key.clone(), 5, 4000), 3000);
    assert_eq!(c.fresh_value(&key, 100, 4050), Some((3050, &5)));
    // a different value restarts the age
    assert_eq!(c.record_fresh(key.clone(), 6, 5000), 0);
    assert_eq!(c.fresh_value(&key, 100, 5050), Some((50, &6)));
    assert_eq!(c.map.len(), 1);
}

#[test]
fn purge_drops_entries_not_refreshed() {
    let mut c: InnerCache<u32> = InnerCache::new(0);
    c.record_fresh("old".to_string(), 1, 10);
    c.record_fresh("new".to_string(), 2, 500_000);
    // too early for a scan: nothing changes
    c.check_purge_old(599_999);
    assert_eq!(c.map.len(), 2);
    assert_eq!(c.last_scanned, 0);
    c.check_purge_old(600_010);
    assert_eq!(c.map.len(), 1);
    assert_eq!(c.map[0].0, "new");
    assert_eq!(c.last_scanned, 600_010);
}

#[test]
fn get_or_insert_fetches_once_and_keeps_errors_out() {
    let mut c: InnerCache<u32> = InnerCache::new(0);
    let key = "lb".to_string();
    // nothing cached: fetch; a failed fetch changes nothing
    assert!(c.fresh_value(&key, 9000, 10).is_none());
    assert_eq!(c.finish_fetch(key.clone(), Err::<u32, &str>("db down"), 10), Err("db down"));
    assert!(c.map.is_empty());
    // a fetched value is recorded and then served from the cache
    assert_eq!(c.finish_fetch(key.clone(), Ok::<u32, &str>(5), 20), Ok(0));
    assert_eq!(c.fresh_value(&key, 9000, 30), Some((10, &5)));
    // an equal value fetched later keeps its age; the finish also purges
    assert_eq!(c.finish_fetch(key.clone(), Ok::<u32, ()>(5), 9100), Ok(9080));
    c.record_fresh("stale".to_string(), 1, 9100);
    assert_eq!(c.finish_fetch(key.clone(), Ok::<u32, ()>(6), 700_000), Ok(0));
    assert_eq!(c.map.len(), 1);
    assert_eq!(c.last_scanned, 700_000);
}
