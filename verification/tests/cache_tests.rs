use api_aggregator::cache::{Cache, DEFAULT_CACHE_DURATION_SECS};

#[test]
fn insert_then_get_returns_value() {
    let mut c: Cache<i32> = Cache::new(60);
    let k = String::from("feed");
    c.insert(k.clone(), 42, 100);
    assert_eq!(c.get(&k, 100), Some(&42));
}

#[test]
fn get_after_ttl_elapsed_returns_none() {
    let mut c: Cache<i32> = Cache::new(60);
    let k = String::from("feed");
    c.insert(k.clone(), 42, 100);
    assert_eq!(c.get(&k, 159), Some(&42));
    assert_eq!(c.get(&k, 160), None);
    assert_eq!(c.get(&k, 1000), None);
}

#[test]
fn get_with_clock_before_insert_returns_none() {
    let mut c: Cache<i32> = Cache::new(60);
    let k = String::from("feed");
    c.insert(k.clone(), 42, 100);
    assert_eq!(c.get(&k, 50), None);
}

#[test]
fn repeated_get_returns_same_value() {
    let mut c: Cache<String> = Cache::new(60);
    let k = String::from("feed");
    c.insert(k.clone(), String::from("payload"), 10);
    let first = c.get(&k, 20).cloned();
    let second = c.get(&k, 20).cloned();
    assert_eq!(first, Some(String::from("payload")));
    assert_eq!(first, second);
}

#[test]
fn insert_overwrites_previous_entry() {
    let mut c: Cache<i32> = Cache::new(60);
    let k = String::from("feed");
    c.insert(k.clone(), 1, 100);
    c.insert(k.clone(), 2, 200);
    assert_eq!(c.get(&k, 210), Some(&2));
}

#[test]
fn insert_refreshes_timestamp() {
    let mut c: Cache<i32> = Cache::new(60);
    let k = String::from("feed");
    c.insert(k.clone(), 1, 100);
    c.insert(k.clone(), 1, 200);
    // fresh relative to the second insert, although the first has expired
    assert_eq!(c.get(&k, 230), Some(&1));
}

#[test]
fn remove_deletes_only_that_key() {
    let mut c: Cache<i32> = Cache::new(60);
    let a = String::from("a");
    let b = String::from("b");
    c.insert(a.clone(), 1, 100);
    c.insert(b.clone(), 2, 100);
    c.remove(&a);
    assert_eq!(c.get(&a, 100), None);
    assert_eq!(c.get(&b, 100), Some(&2));
}

#[test]
fn remove_missing_key_is_a_no_op() {
    let mut c: Cache<i32> = Cache::new(60);
    let a = String::from("a");
    let b = String::from("b");
    c.insert(a.clone(), 1, 100);
    c.remove(&b);
    assert_eq!(c.get(&a, 100), Some(&1));
}

#[test]
fn clear_deletes_everything() {
    let mut c: Cache<i32> = Cache::new(60);
    let a = String::from("a");
    let b = String::from("b");
    c.insert(a.clone(), 1, 100);
    c.insert(b.clone(), 2, 100);
    c.clear();
    assert_eq!(c.get(&a, 100), None);
    assert_eq!(c.get(&b, 100), None);
}

#[test]
fn default_cache_uses_one_hour_ttl() {
    let mut c: Cache<i32> = Cache::default();
    assert_eq!(DEFAULT_CACHE_DURATION_SECS, 3600);
    let k = String::from("k");
    c.insert(k.clone(), 7, 0);
    assert_eq!(c.get(&k, 3599), Some(&7));
    assert_eq!(c.get(&k, 3600), None);
}
