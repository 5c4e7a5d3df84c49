use redis_lite::utils::{base64_to_string, frame_snapshot, generate_random_string, get_key_value_pair_string};

#[test]
fn key_value_line() {
    assert_eq!(
        get_key_value_pair_string("master_repl_offset".to_string(), "0".to_string(), ':'),
        "master_repl_offset:0"
    );
}

#[test]
fn random_id_is_forty_alphanumerics() {
    let a = generate_random_string();
    let b = generate_random_string();
    assert_eq!(a.chars().count(), 40);
    assert!(a.chars().all(|c| c.is_ascii_alphanumeric()));
    assert_ne!(a, b);
}

#[test]
fn base64_payload_is_framed() {
    assert_eq!(base64_to_string("aGVsbG8=").unwrap(), b"$5\r\nhello".to_vec());
}

#[test]
fn invalid_base64_is_reported() {
    assert_eq!(base64_to_string("not base64!").unwrap_err(), "Invalid Base64 string");
}

#[test]
fn frame_of_empty_payload() {
    assert_eq!(frame_snapshot(b""), b"$0\r\n".to_vec());
}

