//! Small helpers: generic map lookup, key/value lines, the replication id,
//! the clock, and the framing of the empty snapshot that a master sends.

use crate::codec::{append_bytes, push_crlf};
use crate::codec;
use crate::digits;
use crate::digits::decimal_bytes;
use crate::trusted;
use crate::trusted::{decode_base64_standard, push_char, random_alphanumeric};
use vstd::hash_map::StringHashMap;
use vstd::prelude::*;

verus! {

/// A clone of the entry `key` of `hash_map`, if it has one.
pub fn map_get<V: Clone>(hash_map: &StringHashMap<V>, key: String) -> (r: Option<V>)
    ensures
        match r {
            Some(v) => hash_map@.contains_key(key@) && cloned(hash_map@[key@], v),
            None => !hash_map@.contains_key(key@),
        },
{
    match hash_map.get(key.as_str()) {
        Some(v) => Some(v.clone()),
        None => None,
    }
}

/// Whether `t` is a reading of the millisecond clock: a value that the
/// call `chrono::Utc::now().timestamp_millis()` (`trusted::utc_now_millis`)
/// can return.
pub closed spec fn is_clock_millis(t: i64) -> bool {
    call_ensures(trusted::utc_now_millis, (), t)
}

/// Calls `f` once and gives back its result.
fn call_once<F: Fn() -> i64>(f: F) -> (t: i64)
    requires
        call_requires(f, ()),
    ensures
        call_ensures(f, (), t),
{
    f()
}

/// Reads the millisecond clock.
pub fn read_clock_millis() -> (t: i64)
    ensures
        t >= 0,
        is_clock_millis(t),
{
    call_once(trusted::utc_now_millis)
}

/// A replication id: forty letters and digits.
pub open spec fn is_replication_id(id: Seq<char>) -> bool {
    &&& id.len() == 40
    &&& forall|i: int| 0 <= i < id.len() ==> trusted::is_alphanumeric(#[trigger] id[i])
}

/// A fresh random replication id.
pub fn generate_random_string() -> (s: String)
    ensures
        is_replication_id(s@),
{
    random_alphanumeric(40)
}

/// `key`, the delimiter, then `value`.
pub fn get_key_value_pair_string(key: String, value: String, delimeter: char) -> (r: String)
    ensures
        r@ == key@.push(delimeter) + value@,
{
    let mut result: String = key;
    push_char(&mut result, delimeter);
    result.append(value.as_str());
    result
}

/// A snapshot payload as the master sends it: `$<len>\r\n` and the bytes,
/// with no terminator after them.
pub open spec fn snapshot_frame(payload: Seq<u8>) -> Seq<u8> {
    seq![36u8] + digits::decimal(payload.len()) + codec::crlf() + payload
}

/// Frames decoded snapshot bytes; see `snapshot_frame`.
pub fn frame_snapshot(bytes: &[u8]) -> (r: Vec<u8>)
    ensures
        r@ == snapshot_frame(bytes@),
{
    let mut ans: Vec<u8> = Vec::new();
    ans.push(36u8);
    let len = decimal_bytes(bytes.len());
    append_bytes(&mut ans, len.as_slice());
    push_crlf(&mut ans);
    append_bytes(&mut ans, bytes);
    assert(ans@ =~= snapshot_frame(bytes@));
    ans
}

/// The message given when the text is not standard base64.
pub open spec fn invalid_base64_message() -> Seq<char> {
    "Invalid Base64 string"@
}

/// Decodes standard base64 text and frames the bytes as a snapshot
/// payload, or gives the error message when the text does not decode.
pub fn base64_to_string(encoded: &str) -> (r: Result<Vec<u8>, String>)
    ensures
        match trusted::base64_standard_decode(encoded@) {
            Some(bytes) => r matches Ok(framed) && framed@ == snapshot_frame(bytes),
            None => r matches Err(e) && e@ == invalid_base64_message(),
        },
{
    match decode_base64_standard(encoded) {
        Some(bytes) => Ok(frame_snapshot(bytes.as_slice())),
        None => Err("Invalid Base64 string".to_owned()),
    }
}

/// The base64 text of an empty RDB snapshot.
pub open spec fn empty_rdb_base64() -> Seq<char> {
    "UkVESVMwMDEx+glyZWRpcy12ZXIFNy4yLjD6CnJlZGlzLWJpdHPAQPoFY3RpbWXCbQi8ZfoIdXNlZC1tZW3CsMQQAPoIYW9mLWJhc2XAAP/wbjv+wP9aog=="@
}

/// The framed empty snapshot, or nothing if its text did not decode.
pub fn empty_rdb_file() -> (r: Vec<u8>)
    ensures
        match trusted::base64_standard_decode(empty_rdb_base64()) {
            Some(bytes) => r@ == snapshot_frame(bytes),
            None => r@ == Seq::<u8>::empty(),
        },
{
    let hex = "UkVESVMwMDEx+glyZWRpcy12ZXIFNy4yLjD6CnJlZGlzLWJpdHPAQPoFY3RpbWXCbQi8ZfoIdXNlZC1tZW3CsMQQAPoIYW9mLWJhc2XAAP/wbjv+wP9aog==";
    match base64_to_string(hex) {
        Ok(decoded) => decoded,
        Err(_) => Vec::new(),
    }
}

} // verus!
