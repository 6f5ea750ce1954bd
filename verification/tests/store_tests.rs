use redis_starter_rust::store::{get, Store};
use redis_starter_rust::store;

#[test]
fn test_set_get() {
    let mut st = Store::new();
    store::set(&mut st, "key1", "value1", None, 0);
    assert_eq!(get(&st, "key1", 0), Some("value1".to_string()));
}

#[test]
fn test_set_get_expired() {
    let mut st = Store::new();
    store::set(&mut st, "key2", "value2", Some(1000000000), 0);
    assert_eq!(get(&st, "key2", 0), Some("value2".to_string()));
    store::set(&mut st, "key3", "value3", Some(0), 0);
    assert_eq!(get(&st, "key3", 1000), None);
}

#[test]
fn test_get_never_set() {
    let st = Store::new();
    assert_eq!(get(&st, "missing", 123), None);
}

#[test]
fn test_set_px_zero_then_later_get_absent() {
    let mut st = Store::new();
    store::set(&mut st, "k", "v", Some(0), 500);
    assert_eq!(get(&st, "k", 501), None);
}

#[test]
fn test_set_overwrites() {
    let mut st = Store::new();
    store::set(&mut st, "k", "old", None, 0);
    store::set(&mut st, "k", "new", None, 1);
    assert_eq!(get(&st, "k", 2), Some("new".to_string()));
}

#[test]
fn test_overwrite_clears_expiry() {
    let mut st = Store::new();
    store::set(&mut st, "k", "v1", Some(10), 0);
    store::set(&mut st, "k", "v2", None, 5);
    assert_eq!(get(&st, "k", 1000), Some("v2".to_string()));
}

#[test]
fn test_expiry_boundary_is_absent() {
    // An entry whose expiry equals the read time is treated as absent.
    let mut st = Store::new();
    store::set(&mut st, "k", "v", Some(100), 0);
    assert_eq!(get(&st, "k", 99), Some("v".to_string()));
    assert_eq!(get(&st, "k", 100), None);
}

#[test]
fn test_two_keys_independent() {
    let mut st = Store::new();
    store::set(&mut st, "a", "1", None, 0);
    store::set(&mut st, "b", "2", Some(0), 0);
    assert_eq!(get(&st, "a", 10), Some("1".to_string()));
    assert_eq!(get(&st, "b", 10), None);
}
