//! The values that travel between the parsers, the store and the encoders.

use vstd::prelude::*;

verus! {

/// The bounds `[start, end)` of a line inside a request buffer.
#[derive(Debug)]
pub struct BufSplit(pub usize, pub usize);

/// A stored value: its text and, when `expiry` is set, the Unix time in
/// milliseconds after which it counts as gone.
#[derive(Debug)]
pub struct Value {
    pub value: String,
    pub expiry: bool,
    pub expires_at: u64,
}

/// The mathematical content of a `Value`.
pub struct ValueView {
    pub value: Seq<char>,
    pub expiry: bool,
    pub expires_at: u64,
}

impl View for Value {
    type V = ValueView;

    open spec fn view(&self) -> ValueView {
        ValueView { value: self.value@, expiry: self.expiry, expires_at: self.expires_at }
    }
}

impl Clone for Value {
    fn clone(&self) -> (r: Self)
        ensures
            r@ == self@,
    {
        Value { value: self.value.clone(), expiry: self.expiry, expires_at: self.expires_at }
    }
}

/// One parsed RESP value.
#[derive(Debug)]
pub enum RESPTypes {
    String(BufSplit),
    Error(BufSplit),
    Int(i64),
    Array(Vec<String>),
    NullArray,
    NullBulkString,
}

/// `std::io::Error`, carried unopened inside `RESPError::IOError`.
#[verifier::external_type_specification]
#[verifier::external_body]
pub struct ExIoError(std::io::Error);

/// Why a request could not be parsed.
#[derive(Debug)]
pub enum RESPError {
    UnexpectedEnd,
    UnknownStartingByte,
    IOError(std::io::Error),
    IntParseFailure,
    BadBulkStringSize(i64),
    BadArraySize(i64),
}

impl From<std::io::Error> for RESPError {
    fn from(e: std::io::Error) -> (r: RESPError) {
        RESPError::IOError(e)
    }
}

impl vstd::std_specs::convert::FromSpecImpl<std::io::Error> for RESPError {
    open spec fn obeys_from_spec() -> bool {
        true
    }

    open spec fn from_spec(v: std::io::Error) -> RESPError {
        RESPError::IOError(v)
    }
}

/// The outcome of parsing: the position reached and the value, `None`
/// when more input is needed, or the error.
pub type RedisResult = Result<Option<(usize, RESPTypes)>, RESPError>;

/// Marks an input on which the request handling stops the way a failed
/// assertion would: an index past the end, a number that does not parse,
/// a missing key, an unsupported command. The server drops the connection
/// (or the process) on it.
#[derive(Debug)]
pub struct Abort;

} // verus!
