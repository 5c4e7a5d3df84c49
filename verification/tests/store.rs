use redis_lite::store::{map_config_get, map_config_insert, map_get, map_insert, Store};
use redis_lite::types::Value;

fn value(text: &str) -> Value {
    Value { value: text.to_string(), expiry: false, expires_at: 0 }
}

#[test]
fn read_after_write() {
    let mut store = Store::new();
    map_insert(&mut store, "k".to_string(), value("v"));
    let got = map_get(&store, "k".to_string()).unwrap();
    assert_eq!(got.value, "v");
    assert!(!got.expiry);
}

#[test]
fn missing_key_reads_none() {
    let store = Store::new();
    assert!(map_get(&store, "nope".to_string()).is_none());
}

#[test]
fn overwrite_keeps_one_key() {
    let mut store = Store::new();
    map_insert(&mut store, "a".to_string(), value("1"));
    map_insert(&mut store, "b".to_string(), value("2"));
    map_insert(&mut store, "a".to_string(), value("3"));
    assert_eq!(map_get(&store, "a".to_string()).unwrap().value, "3");
    assert_eq!(map_get(&store, "b".to_string()).unwrap().value, "2");
    assert_eq!(store.keys(), vec!["a".to_string(), "b".to_string()]);
}

#[test]
fn config_read_after_write() {
    let mut store = Store::new();
    assert!(map_config_get(&store, "dir".to_string()).is_none());
    map_config_insert(&mut store, "dir".to_string(), "/tmp".to_string());
    assert_eq!(map_config_get(&store, "dir".to_string()), Some("/tmp".to_string()));
    assert!(store.config_contains("dir"));
    assert!(!store.config_contains("port"));
}

#[test]
fn handshake_flag() {
    let mut store = Store::new();
    assert!(!store.handshake_ok());
    store.acknowledge();
    assert!(store.handshake_ok());
}

#[test]
fn value_clone_keeps_fields() {
    let v = Value { value: "x".to_string(), expiry: true, expires_at: 42 };
    let c = v.clone();
    assert_eq!(c.value, "x");
    assert!(c.expiry);
    assert_eq!(c.expires_at, 42);
}

#[test]
fn io_error_converts() {
    let e: redis_lite::types::RESPError = std::io::Error::new(std::io::ErrorKind::Other, "x").into();
    assert!(matches!(e, redis_lite::types::RESPError::IOError(_)));
}

#[test]
fn read_after_other_writes() {
    let mut store = Store::new();
    map_insert(&mut store, "k".to_string(), value("x"));
    map_config_insert(&mut store, "k".to_string(), "c".to_string());
    map_insert(&mut store, "other".to_string(), value("y"));
    map_config_insert(&mut store, "dir".to_string(), "/tmp".to_string());
    assert_eq!(map_get(&store, "k".to_string()).unwrap().value, "x");
    assert_eq!(map_config_get(&store, "k".to_string()), Some("c".to_string()));
    assert!(map_get(&store, "never".to_string()).is_none());
    assert!(map_config_get(&store, "never".to_string()).is_none());
}
