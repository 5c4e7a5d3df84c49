use redis_lite::codec::{encode_array, encode_bulk_string};
use redis_lite::digits::{decimal_bytes, parse_unsigned_bytes};

fn strings(items: &[&str]) -> Vec<String> {
    items.iter().map(|s| s.to_string()).collect()
}

#[test]
fn encode_array_of_one_command() {
    assert_eq!(encode_array(strings(&["PING"])), b"*1\r\n$4\r\nPING\r\n".to_vec());
}

#[test]
fn encode_array_of_three_items() {
    assert_eq!(
        encode_array(strings(&["REPLCONF", "capa", "psync2"])),
        b"*3\r\n$8\r\nREPLCONF\r\n$4\r\ncapa\r\n$6\r\npsync2\r\n".to_vec()
    );
}

#[test]
fn encode_array_empty() {
    assert_eq!(encode_array(Vec::new()), b"*0\r\n".to_vec());
}

#[test]
fn encode_array_counts_utf8_bytes() {
    assert_eq!(encode_array(strings(&["é"])), "*1\r\n$2\r\né\r\n".as_bytes().to_vec());
}

#[test]
fn encode_bulk_string_joins_lines() {
    assert_eq!(
        encode_bulk_string(strings(&["role:master", "master_repl_offset:0"])),
        b"$33\r\nrole:master\r\nmaster_repl_offset:0\r\n".to_vec()
    );
}

#[test]
fn encode_bulk_string_single_line() {
    assert_eq!(encode_bulk_string(strings(&["role:slave"])), b"$10\r\nrole:slave\r\n".to_vec());
}

#[test]
fn encode_bulk_string_empty() {
    assert_eq!(encode_bulk_string(Vec::new()), b"$0\r\n\r\n".to_vec());
}

#[test]
fn decimal_text_of_lengths() {
    assert_eq!(decimal_bytes(0), b"0".to_vec());
    assert_eq!(decimal_bytes(7), b"7".to_vec());
    assert_eq!(decimal_bytes(10), b"10".to_vec());
    assert_eq!(decimal_bytes(1234567), b"1234567".to_vec());
}

#[test]
fn parse_unsigned_like_str_parse() {
    assert_eq!(parse_unsigned_bytes(b"12", 255), Some(12));
    assert_eq!(parse_unsigned_bytes(b"+12", 255), Some(12));
    assert_eq!(parse_unsigned_bytes(b"007", 255), Some(7));
    assert_eq!(parse_unsigned_bytes(b"255", 255), Some(255));
    assert_eq!(parse_unsigned_bytes(b"256", 255), None);
    assert_eq!(parse_unsigned_bytes(b"", 255), None);
    assert_eq!(parse_unsigned_bytes(b"+", 255), None);
    assert_eq!(parse_unsigned_bytes(b"-1", 255), None);
    assert_eq!(parse_unsigned_bytes(b"1a", 255), None);
    assert_eq!(parse_unsigned_bytes(b"18446744073709551615", u64::MAX), Some(u64::MAX));
    assert_eq!(parse_unsigned_bytes(b"18446744073709551616", u64::MAX), None);
}

#[test]
fn parse_unsigned_agrees_with_std() {
    for text in ["0", "1", "+5", "99", "128", "255", "256", "", "+", "x", "12x", " 1"] {
        let ours = parse_unsigned_bytes(text.as_bytes(), 255);
        let std = text.parse::<u8>().ok().map(|v| v as u64);
        assert_eq!(ours, std, "{}", text);
    }
}

#[test]
fn decimal_then_parse_round_trip() {
    for n in [0usize, 1, 9, 10, 99, 100, 65535, 123456789] {
        assert_eq!(parse_unsigned_bytes(&decimal_bytes(n), u64::MAX), Some(n as u64));
    }
}
