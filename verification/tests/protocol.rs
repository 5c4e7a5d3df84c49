use redis_lite::parsers::protocol::{parse_and_decode, parse_redis_protocol, respond};
use redis_lite::parsers::wire::{array, word};
use redis_lite::store::{map_config_insert, map_get, map_insert, Store};
use redis_lite::types::{RESPError, RESPTypes, Value};

fn request(items: &[&str]) -> Vec<u8> {
    let mut out = format!("*{}\r\n", items.len()).into_bytes();
    for item in items {
        out.extend_from_slice(format!("${}\r\n{}\r\n", item.len(), item).as_bytes());
    }
    out
}

fn handle(store: &mut Store, items: &[&str]) -> Vec<u8> {
    parse_and_decode(store, &request(items)).ok().unwrap().unwrap()
}

fn strings(items: &[&str]) -> Vec<String> {
    items.iter().map(|s| s.to_string()).collect()
}

#[test]
fn ping_answers_pong() {
    let mut store = Store::new();
    assert_eq!(handle(&mut store, &["PING"]), b"+PONG\r\n".to_vec());
}

#[test]
fn echo_answers_bulk_string() {
    let mut store = Store::new();
    assert_eq!(handle(&mut store, &["ECHO", "hey"]), b"$3\r\nhey\r\n".to_vec());
}

#[test]
fn set_then_get() {
    let mut store = Store::new();
    assert_eq!(handle(&mut store, &["SET", "foo", "bar"]), b"+OK\r\n".to_vec());
    assert_eq!(handle(&mut store, &["GET", "foo"]), b"$3\r\nbar\r\n".to_vec());
}

#[test]
fn set_overwrites() {
    let mut store = Store::new();
    handle(&mut store, &["SET", "foo", "bar"]);
    handle(&mut store, &["SET", "foo", "baz"]);
    assert_eq!(handle(&mut store, &["GET", "foo"]), b"$3\r\nbaz\r\n".to_vec());
}

#[test]
fn set_with_expiry_then_get_before_it() {
    let mut store = Store::new();
    assert_eq!(handle(&mut store, &["SET", "k", "v", "px", "100000"]), b"+OK\r\n".to_vec());
    let stored = map_get(&store, "k".to_string()).unwrap();
    assert!(stored.expiry);
    assert_eq!(handle(&mut store, &["GET", "k"]), b"$1\r\nv\r\n".to_vec());
}

#[test]
fn get_after_expiry_is_null() {
    let mut store = Store::new();
    map_insert(&mut store, "k".to_string(), Value { value: "v".to_string(), expiry: true, expires_at: 1 });
    assert_eq!(handle(&mut store, &["GET", "k"]), b"$-1\r\n".to_vec());
}

#[test]
fn respond_at_fixed_time() {
    let mut store = Store::new();
    let set = strings(&["SET", "k", "v", "px", "100"]);
    assert_eq!(respond(&mut store, &set, 1000, String::new()).ok().unwrap(), b"+OK\r\n".to_vec());
    assert_eq!(map_get(&store, "k".to_string()).unwrap().expires_at, 1100);
    let get = strings(&["GET", "k"]);
    assert_eq!(respond(&mut store, &get, 1100, String::new()).ok().unwrap(), b"$1\r\nv\r\n".to_vec());
    assert_eq!(respond(&mut store, &get, 1101, String::new()).ok().unwrap(), b"$-1\r\n".to_vec());
}

#[test]
fn get_missing_key_aborts() {
    let mut store = Store::new();
    assert!(parse_and_decode(&mut store, &request(&["GET", "nope"])).is_err());
}

#[test]
fn set_with_bad_expiry_aborts_and_keeps_store() {
    let mut store = Store::new();
    assert!(parse_and_decode(&mut store, &request(&["SET", "k", "v", "px", "soon"])).is_err());
    assert!(parse_and_decode(&mut store, &request(&["SET", "k", "v", "px"])).is_err());
    assert!(map_get(&store, "k".to_string()).is_none());
}

#[test]
fn config_get_answers_array() {
    let mut store = Store::new();
    map_config_insert(&mut store, "dir".to_string(), "/tmp/redis-files".to_string());
    assert_eq!(
        handle(&mut store, &["CONFIG", "GET", "dir"]),
        b"*2\r\n$3\r\ndir\r\n$16\r\n/tmp/redis-files\r\n".to_vec()
    );
}

#[test]
fn config_get_missing_aborts() {
    let mut store = Store::new();
    assert!(parse_and_decode(&mut store, &request(&["CONFIG", "GET", "dir"])).is_err());
    assert!(parse_and_decode(&mut store, &request(&["CONFIG", "SET", "dir"])).is_err());
}

#[test]
fn keys_lists_keys_in_order() {
    let mut store = Store::new();
    handle(&mut store, &["SET", "b", "1"]);
    handle(&mut store, &["SET", "a", "2"]);
    handle(&mut store, &["SET", "b", "3"]);
    assert_eq!(handle(&mut store, &["KEYS", "*"]), b"*2\r\n$1\r\nb\r\n$1\r\na\r\n".to_vec());
}

#[test]
fn info_replication_on_master() {
    let mut store = Store::new();
    let reply = handle(&mut store, &["INFO", "replication"]);
    let text = String::from_utf8(reply).unwrap();
    assert!(text.starts_with("$89\r\nrole:master\r\nmaster_replid:"));
    assert!(text.ends_with("\r\nmaster_repl_offset:0\r\n"));
    let id = &text["$89\r\nrole:master\r\nmaster_replid:".len()..text.len() - "\r\nmaster_repl_offset:0\r\n".len()];
    assert_eq!(id.len(), 40);
    assert!(id.chars().all(|c| c.is_ascii_alphanumeric()));
}

#[test]
fn info_replication_on_replica() {
    let mut store = Store::new();
    map_config_insert(&mut store, "master_port".to_string(), "6379".to_string());
    assert_eq!(handle(&mut store, &["INFO", "replication"]), b"$10\r\nrole:slave\r\n".to_vec());
}

#[test]
fn unknown_command_aborts() {
    let mut store = Store::new();
    assert!(parse_and_decode(&mut store, &request(&["FLUSHALL"])).is_err());
    assert!(parse_and_decode(&mut store, &request(&["KEYS", "a*"])).is_err());
    assert!(parse_and_decode(&mut store, &request(&["INFO", "server"])).is_err());
}

#[test]
fn empty_and_foreign_buffers_are_ignored() {
    let mut store = Store::new();
    assert!(matches!(parse_and_decode(&mut store, b""), Ok(None)));
    assert!(matches!(parse_and_decode(&mut store, b"+PING\r\n"), Ok(None)));
    assert!(matches!(parse_and_decode(&mut store, b"*0\r\n"), Ok(None)));
}

#[test]
fn truncated_request_aborts() {
    let mut store = Store::new();
    assert!(parse_and_decode(&mut store, b"*2\r\n$4\r\nECHO\r\n").is_err());
    assert!(parse_and_decode(&mut store, b"*x\r\n").is_err());
    assert!(parse_and_decode(&mut store, b"*200\r\n").is_err());
}

#[test]
fn word_reads_a_line() {
    let (next, split) = word(b"abc\r\ndef", 0).unwrap();
    assert_eq!((next, split.0, split.1), (5, 0, 3));
    assert!(word(b"abc", 0).is_none());
    assert!(word(b"abc\r\n", 5).is_none());
}

#[test]
fn word_compares_offset_with_whole_length() {
    // the '\r' sits at offset 0 from pos 3, and 0 + 1 < 5 holds
    let (next, split) = word(b"abc\r\n", 3).unwrap();
    assert_eq!((next, split.0, split.1), (5, 3, 3));
}

#[test]
fn array_reads_items() {
    let buf = request(&["ECHO", "hi"]);
    match array(&buf, 1).ok().unwrap() {
        Ok(Some((n, RESPTypes::Array(v)))) => {
            assert_eq!(n, 2);
            assert_eq!(v, strings(&["ECHO", "hi"]));
        }
        _ => panic!("not an array"),
    }
}

#[test]
fn array_of_zero_items_fails_to_parse() {
    assert!(matches!(array(b"*0\r\n", 1), Ok(Err(RESPError::IntParseFailure))));
}

#[test]
fn array_keeps_invalid_utf8_lossy() {
    let buf = b"*1\r\n$2\r\n\xff\xfe\r\n".to_vec();
    match array(&buf, 1).ok().unwrap() {
        Ok(Some((_, RESPTypes::Array(v)))) => assert_eq!(v, vec!["\u{fffd}\u{fffd}".to_string()]),
        _ => panic!("not an array"),
    }
}

#[test]
fn protocol_rejects_other_starting_bytes() {
    assert!(matches!(parse_redis_protocol(b"+OK\r\n", 0), Ok(Err(RESPError::UnknownStartingByte))));
    assert!(parse_redis_protocol(b"*1\r\n", 9).is_err());
}

#[test]
fn set_keeps_other_keys() {
    let mut store = Store::new();
    handle(&mut store, &["SET", "a", "1"]);
    handle(&mut store, &["SET", "b", "2"]);
    assert_eq!(handle(&mut store, &["GET", "a"]), b"$1\r\n1\r\n".to_vec());
}

#[test]
fn reads_do_not_change_keys() {
    let mut store = Store::new();
    handle(&mut store, &["SET", "a", "1"]);
    handle(&mut store, &["GET", "a"]);
    handle(&mut store, &["ECHO", "b"]);
    handle(&mut store, &["KEYS", "*"]);
    assert_eq!(store.keys(), strings(&["a"]));
}

#[test]
fn encoded_array_reads_back() {
    let items = strings(&["SET", "grüße", "x y", ""]);
    let buf = redis_lite::codec::encode_array(items.clone());
    match array(&buf, 1).ok().unwrap() {
        Ok(Some((n, RESPTypes::Array(v)))) => {
            assert_eq!(n, 4);
            assert_eq!(v, items);
        }
        _ => panic!("not an array"),
    }
}
