use redis_lite::parsers::rdb_file_parser::{get_ele, get_ele_normal, get_key_value_pair, parse_db_section, parse_rdb_file};
use redis_lite::store::{map_get, Store};
use redis_lite::utils::empty_rdb_file;

fn snapshot(body: &[u8]) -> Vec<u8> {
    let mut out = b"REDIS0011".to_vec();
    out.extend_from_slice(body);
    out.push(0xff);
    out
}

#[test]
fn plain_entry_is_loaded() {
    let bytes = snapshot(&[0xfe, 0x00, 0xfb, 0x01, 0x00, 0x00, 3, b'f', b'o', b'o', 3, b'b', b'a', b'r']);
    let mut store = Store::new();
    assert!(parse_rdb_file(&mut store, &bytes).is_ok());
    let v = map_get(&store, "foo".to_string()).unwrap();
    assert_eq!(v.value, "bar");
    assert!(!v.expiry);
    assert_eq!(store.keys(), vec!["foo".to_string()]);
}

#[test]
fn expiring_entry_carries_its_time() {
    let mut body = vec![0xfe, 0x00, 0xfb, 0x01, 0x01, 0xfc];
    body.extend_from_slice(&1713824559637u64.to_le_bytes());
    body.extend_from_slice(&[0x00, 1, b'k', 1, b'v']);
    let bytes = snapshot(&body);
    let mut store = Store::new();
    assert!(parse_rdb_file(&mut store, &bytes).is_ok());
    let v = map_get(&store, "k".to_string()).unwrap();
    assert_eq!(v.value, "v");
    assert!(v.expiry);
    assert_eq!(v.expires_at, 1713824559637);
}

#[test]
fn every_counted_entry_is_loaded() {
    let bytes = vec![0xFE, 0x00, 0xFB, 0x02, 0x00, 0x00, 0x01, b'a', 0x01, b'1', 0x00, 0x01, b'b', 0x01, b'2'];
    let mut store = Store::new();
    assert!(parse_rdb_file(&mut store, &bytes).is_ok());
    assert_eq!(map_get(&store, "a".to_string()).unwrap().value, "1");
    assert_eq!(map_get(&store, "b".to_string()).unwrap().value, "2");
    assert_eq!(store.keys(), vec!["a".to_string(), "b".to_string()]);
}

#[test]
fn seconds_expiry_is_kept_in_milliseconds() {
    let mut body = vec![0xfe, 0x00, 0xfb, 0x02, 0x02, 0xfd];
    body.extend_from_slice(&1714089298u32.to_le_bytes());
    body.extend_from_slice(&[0x00, 1, b'k', 1, b'v', 0xfd, 0, 0, 0, 0, 0x00, 0x01, b'a', 0x01, b'1']);
    let bytes = snapshot(&body);
    let mut store = Store::new();
    assert!(parse_rdb_file(&mut store, &bytes).is_ok());
    let v = map_get(&store, "k".to_string()).unwrap();
    assert_eq!(v.value, "v");
    assert!(v.expiry);
    assert_eq!(v.expires_at, 1714089298000);
    assert_eq!(map_get(&store, "a".to_string()).unwrap().value, "1");
}

#[test]
fn truncated_expiry_stops_the_load() {
    let bytes = b"REDIS0011\xfe\x00\xfb\x01\x01\xfd\x01\x02".to_vec();
    let mut store = Store::new();
    assert!(parse_rdb_file(&mut store, &bytes).is_err());
    assert!(store.keys().is_empty());
}

#[test]
fn truncated_entry_stops_the_load() {
    let bytes = b"REDIS0011\xfe\x00\xfb\x01\x00\x00\x05ab".to_vec();
    let mut store = Store::new();
    assert!(parse_rdb_file(&mut store, &bytes).is_err());
}

#[test]
fn no_database_section_loads_nothing() {
    let mut store = Store::new();
    assert!(parse_rdb_file(&mut store, &b"REDIS0011\xff".to_vec()).is_ok());
    assert!(store.keys().is_empty());
}

#[test]
fn invalid_utf8_key_gets_placeholder() {
    let bytes = snapshot(&[0xfe, 0x00, 0xfb, 0x01, 0x00, 0x00, 1, 0xff, 1, b'v']);
    let mut store = Store::new();
    assert!(parse_rdb_file(&mut store, &bytes).is_ok());
    assert_eq!(map_get(&store, "<Invalid UTF-8>".to_string()).unwrap().value, "v");
}

#[test]
fn empty_snapshot_from_master() {
    let bytes = empty_rdb_file();
    assert!(bytes.starts_with(b"$88\r\nREDIS0011"));
    assert_eq!(bytes.len(), 5 + 88);
}

#[test]
fn elements_by_index() {
    let bytes = vec![0x0a, 0xfe];
    assert_eq!(get_ele(0, &bytes), "0a");
    assert_eq!(get_ele(1, &bytes), "fe");
    assert_eq!(get_ele(2, &bytes), "");
    assert_eq!(get_ele_normal(1, &bytes), 0xfe);
    assert_eq!(get_ele_normal(5, &bytes), 0);
}

#[test]
fn key_value_pair_includes_size_bytes() {
    let bytes = vec![0x00, 2, b'h', b'i', 1, b'x'];
    let (k, v) = get_key_value_pair(0, &bytes).unwrap();
    assert_eq!(k, "hi");
    assert_eq!(v, "x");
    let pair = vec![0x00, 0x03, b'f', b'o', b'o', 0x03, b'b', b'a', b'r'];
    assert_eq!(get_key_value_pair(0, &pair), Some(("foo".to_string(), "bar".to_string())));
    assert!(get_key_value_pair(0, &vec![0x00, 9, b'h']).is_none());
}

#[test]
fn section_with_two_databases() {
    let bytes = vec![
        0x00, 0xfb, 0x01, 0x00, 0x00, 1, b'a', 1, b'b', 0xfe, 0x01, 0xfb, 0x01, 0x00, 0x00, 1, b'c', 1, b'd', 0xff,
    ];
    let entries = parse_db_section(0, bytes.len(), &bytes).unwrap();
    let keys: Vec<String> = entries.iter().map(|e| e.0.clone()).collect();
    assert_eq!(keys, vec!["a".to_string(), "c".to_string()]);
    assert_eq!(entries[1].1.value, "d");
}
