//! The calls into outside code that the library makes, each with the
//! contract that the outside source or documentation shows for it.
//! Nothing here is proved: every item is believed as written.

use base64::Engine;
use rand::Rng;
use vstd::prelude::*;
use vstd::utf8::*;

verus! {

/// `memchr::memchr`: the index of the first occurrence of `needle` in
/// `haystack`, or `None` when the byte does not occur. The crate documents
/// it as the same as `haystack.iter().position(|&b| b == needle)`.
#[verifier::external_body]
pub(crate) fn memchr_first(needle: u8, haystack: &[u8]) -> (r: Option<usize>)
    ensures
        match r {
            Some(i) => i < haystack@.len() && haystack@[i as int] == needle && forall|j: int|
                0 <= j < i ==> haystack@[j] != needle,
            None => forall|j: int| 0 <= j < haystack@.len() ==> haystack@[j] != needle,
        },
{
    memchr::memchr(needle, haystack)
}

/// `chrono::Utc::now().timestamp_millis()`: milliseconds since the Unix
/// epoch. It depends on the clock, so only its sign is stated: `Utc::now`
/// measures the duration since the epoch (and panics for a clock set
/// before it), so what comes back is never negative.
#[verifier::external_body]
pub(crate) fn utc_now_millis() -> (t: i64)
    ensures
        t >= 0,
{
    chrono::Utc::now().timestamp_millis()
}

/// True for the ASCII letters and digits, the alphabet of `Alphanumeric`.
pub open spec fn is_alphanumeric(c: char) -> bool {
    ('A' <= c && c <= 'Z') || ('a' <= c && c <= 'z') || ('0' <= c && c <= '9')
}

/// `len` characters drawn with `rand::thread_rng()` from
/// `rand::distributions::Alphanumeric`. Which characters come back is
/// left open; the distribution only ever yields `A-Z`, `a-z` and `0-9`.
#[verifier::external_body]
pub(crate) fn random_alphanumeric(len: usize) -> (s: String)
    ensures
        s@.len() == len,
        forall|i: int| 0 <= i < s@.len() ==> is_alphanumeric(#[trigger] s@[i]),
{
    rand::thread_rng().sample_iter(&rand::distributions::Alphanumeric).take(len).map(char::from).collect()
}

/// What `base64::engine::general_purpose::STANDARD.decode` gives for the
/// UTF-8 text of `text`: the decoded bytes, or `None` where it reports an
/// error.
pub uninterp spec fn base64_standard_decode(text: Seq<char>) -> Option<Seq<u8>>;

/// `base64::engine::general_purpose::STANDARD.decode(text)`, with its
/// `DecodeError` turned into `None`. Its result is a function of `text`
/// alone and is named, not restated.
#[verifier::external_body]
pub(crate) fn decode_base64_standard(text: &str) -> (r: Option<Vec<u8>>)
    ensures
        match r {
            Some(bytes) => base64_standard_decode(text@) == Some(bytes@),
            None => base64_standard_decode(text@) is None,
        },
{
    match base64::engine::general_purpose::STANDARD.decode(text) {
        Ok(bytes) => Some(bytes),
        Err(_) => None,
    }
}

/// `String::from_utf8`: a string whose UTF-8 bytes are exactly `bytes`, or
/// `None` (its `FromUtf8Error`) when `bytes` is not valid UTF-8.
#[verifier::external_body]
pub(crate) fn string_from_utf8(bytes: Vec<u8>) -> (r: Option<String>)
    ensures
        r is Some <==> valid_utf8(bytes@),
        r matches Some(s) ==> encode_utf8(s@) == bytes@,
{
    match String::from_utf8(bytes) {
        Ok(s) => Some(s),
        Err(_) => None,
    }
}

/// The text that `String::from_utf8_lossy` makes of some bytes: invalid
/// sequences become U+FFFD.
pub uninterp spec fn utf8_lossy(bytes: Seq<u8>) -> Seq<char>;

/// `String::from_utf8_lossy(bytes).into_owned()`. Its result is named; the
/// documentation also says that valid UTF-8 comes through unchanged.
#[verifier::external_body]
pub(crate) fn string_from_utf8_lossy(bytes: &[u8]) -> (s: String)
    ensures
        s@ == utf8_lossy(bytes@),
        valid_utf8(bytes@) ==> encode_utf8(s@) == bytes@,
{
    String::from_utf8_lossy(bytes).into_owned()
}

/// `String::push`: appends one character.
#[verifier::external_body]
pub(crate) fn push_char(s: &mut String, c: char)
    ensures
        final(s)@ == old(s)@.push(c),
{
    s.push(c)
}

} // verus!
