use redis_lite::parsers::handshake_parser::{parse_and_decode_handshake, parse_redis_protocol, simple_string};
use redis_lite::server::handshake::{handshake_2, handshake_3};
use redis_lite::store::{map_config_insert, Store};
use redis_lite::types::{RESPError, RESPTypes};

#[test]
fn handshake_2_announces_port() {
    assert_eq!(
        handshake_2("6380".to_string()),
        b"*3\r\n$8\r\nREPLCONF\r\n$14\r\nlistening-port\r\n$4\r\n6380\r\n".to_vec()
    );
}

#[test]
fn handshake_3_announces_capabilities() {
    assert_eq!(handshake_3(), b"*3\r\n$8\r\nREPLCONF\r\n$4\r\ncapa\r\n$6\r\npsync2\r\n".to_vec());
}

#[test]
fn pong_is_followed_by_listening_port() {
    let mut store = Store::new();
    let r = parse_and_decode_handshake(&mut store, b"+PONG\r\n", false).ok().unwrap().unwrap();
    assert_eq!(r, handshake_2("6379".to_string()));
    map_config_insert(&mut store, "port".to_string(), "6380".to_string());
    let r = parse_and_decode_handshake(&mut store, b"+PONG\r\n", false).ok().unwrap().unwrap();
    assert_eq!(r, handshake_2("6380".to_string()));
}

#[test]
fn first_ok_is_followed_by_capa_then_echoed() {
    let mut store = Store::new();
    let r = parse_and_decode_handshake(&mut store, b"+OK\r\n", false).ok().unwrap().unwrap();
    assert_eq!(r, handshake_3());
    assert!(store.handshake_ok());
    let r = parse_and_decode_handshake(&mut store, b"+OK\r\n", true).ok().unwrap().unwrap();
    assert_eq!(r, b"OK".to_vec());
}

#[test]
fn other_status_is_echoed() {
    let mut store = Store::new();
    let r = parse_and_decode_handshake(&mut store, b"+FULLRESYNC abc 0\r\n", false).ok().unwrap().unwrap();
    assert_eq!(r, b"FULLRESYNC abc 0".to_vec());
}

#[test]
fn replconf_commands_answer_ok() {
    let mut store = Store::new();
    let port = b"*3\r\n$8\r\nREPLCONF\r\n$14\r\nlistening-port\r\n$4\r\n6380\r\n";
    assert_eq!(parse_and_decode_handshake(&mut store, port, false).ok().unwrap().unwrap(), b"+OK\r\n".to_vec());
    let capa = b"*3\r\n$8\r\nREPLCONF\r\n$4\r\ncapa\r\n$6\r\npsync2\r\n";
    assert_eq!(parse_and_decode_handshake(&mut store, capa, false).ok().unwrap().unwrap(), b"+OK\r\n".to_vec());
}

#[test]
fn pong_array_is_followed_by_listening_port() {
    let mut store = Store::new();
    let r = parse_and_decode_handshake(&mut store, b"*1\r\n$4\r\nPONG\r\n", false).ok().unwrap().unwrap();
    assert_eq!(r, handshake_2("6379".to_string()));
}

#[test]
fn unsupported_handshake_commands_abort() {
    let mut store = Store::new();
    assert!(parse_and_decode_handshake(&mut store, b"*3\r\n$8\r\nREPLCONF\r\n$4\r\ncapa\r\n$3\r\neof\r\n", false).is_err());
    assert!(parse_and_decode_handshake(&mut store, b"*2\r\n$8\r\nREPLCONF\r\n$4\r\ncapa\r\n", false).is_err());
    assert!(parse_and_decode_handshake(&mut store, b"*1\r\n$4\r\nPING\r\n", false).is_err());
}

#[test]
fn ignored_handshake_buffers() {
    let mut store = Store::new();
    assert!(matches!(parse_and_decode_handshake(&mut store, b"", false), Ok(None)));
    assert!(matches!(parse_and_decode_handshake(&mut store, b"+OK", false), Ok(None)));
    assert!(matches!(parse_and_decode_handshake(&mut store, b"-ERR\r\n", false), Ok(None)));
    assert!(!store.handshake_ok());
}

#[test]
fn simple_string_bounds() {
    match simple_string(b"+OK\r\n", 1) {
        Ok(Some((next, RESPTypes::String(split)))) => assert_eq!((next, split.0, split.1), (5, 1, 3)),
        _ => panic!("not a simple string"),
    }
    assert!(matches!(simple_string(b"+OK", 1), Ok(None)));
}

#[test]
fn handshake_protocol_rejects_other_starting_bytes() {
    assert!(matches!(parse_redis_protocol(b":1\r\n", 0), Ok(Err(RESPError::UnknownStartingByte))));
}

#[test]
fn capa_is_sent_once_over_a_sequence() {
    let mut store = Store::new();
    let bufs: Vec<&[u8]> = vec![b"+PONG\r\n", b"+OK\r\n", b"+OK\r\n", b"+FULLRESYNC x 0\r\n", b"+OK\r\n"];
    let replies: Vec<Option<Vec<u8>>> =
        bufs.iter().map(|b| parse_and_decode_handshake(&mut store, b, false).ok().unwrap()).collect();
    let capa = handshake_3();
    assert_eq!(replies.iter().filter(|r| r.as_ref() == Some(&capa)).count(), 1);
    assert_eq!(replies[1], Some(capa));
    assert_eq!(replies[2], Some(b"OK".to_vec()));
    assert_eq!(replies[4], Some(b"OK".to_vec()));
}

#[test]
fn flag_does_not_change_the_answer() {
    for buf in [&b"+PONG\r\n"[..], b"+OK\r\n", b"*1\r\n$4\r\nPONG\r\n", b"+X\r\n"] {
        let mut a = Store::new();
        let mut b = Store::new();
        let ra = parse_and_decode_handshake(&mut a, buf, true).ok().unwrap();
        let rb = parse_and_decode_handshake(&mut b, buf, false).ok().unwrap();
        assert_eq!(ra, rb);
        assert_eq!(a.handshake_ok(), b.handshake_ok());
    }
}
