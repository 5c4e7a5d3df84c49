//! The command side of the server: a request is read as a RESP array of
//! bulk strings and answered from the store.

use crate::codec;
use crate::codec::{append_bytes, encode_array, encode_bulk_string, push_bulk_string};
use crate::digits;
use crate::digits::parse_unsigned_bytes;
use crate::parsers::wire;
use crate::parsers::wire::{array, ArrayShape};
use crate::search::text_is;
use crate::store;
use crate::store::{map_config_get, map_get, map_insert, Store, StoreModel};
use crate::types::{Abort, RESPError, RESPTypes, RedisResult, Value, ValueView};
use crate::utils;
use crate::utils::{generate_random_string, get_key_value_pair_string, read_clock_millis};
use vstd::prelude::*;
use vstd::utf8::*;

verus! {

/// `+PONG\r\n`
pub open spec fn pong_reply() -> Seq<u8> {
    seq![43u8, 80u8, 79u8, 78u8, 71u8, 13u8, 10u8]
}

/// `+OK\r\n`
pub open spec fn ok_reply() -> Seq<u8> {
    seq![43u8, 79u8, 75u8, 13u8, 10u8]
}

/// `$-1\r\n`, the null bulk string.
pub open spec fn null_bulk_reply() -> Seq<u8> {
    seq![36u8, 45u8, 49u8, 13u8, 10u8]
}

/// A bulk string holding the UTF-8 bytes of `t`.
pub open spec fn text_bulk(t: Seq<char>) -> Seq<u8> {
    codec::bulk_string_bytes(encode_utf8(t))
}

/// `now` read as an unsigned millisecond count, as `as u64` does.
pub open spec fn unsigned_millis(now: i64) -> u64 {
    now as u64
}

/// The store after `SET key value [PX ms]`, or `None` where the command
/// stops: too few arguments, an expiry argument missing or not a `u64`,
/// or an expiry time past `u64::MAX`. The word before the milliseconds is
/// not looked at.
pub open spec fn spec_set(s: StoreModel, v: Seq<Seq<char>>, now: i64) -> Option<StoreModel> {
    if v.len() < 3 {
        None
    } else if v.len() > 3 {
        if v.len() < 5 {
            None
        } else {
            match digits::parse_unsigned(encode_utf8(v[4]), u64::MAX as nat) {
                None => None,
                Some(ms) => if unsigned_millis(now) + ms > u64::MAX {
                    None
                } else {
                    Some(
                        s.insert(
                            v[1],
                            ValueView {
                                value: v[2],
                                expiry: true,
                                expires_at: (unsigned_millis(now) + ms) as u64,
                            },
                        ),
                    )
                },
            }
        }
    } else {
        Some(s.insert(v[1], ValueView { value: v[2], expiry: false, expires_at: 0 }))
    }
}

/// The reply to `GET key`, or `None` where the command stops: no key
/// argument, a key that is not stored, or a time difference outside `i64`.
/// A value whose expiry time lies before `now` reads as the null bulk string.
pub open spec fn spec_get(s: StoreModel, v: Seq<Seq<char>>, now: i64) -> Option<Seq<u8>> {
    if v.len() < 2 || !s.data.contains_key(v[1]) {
        None
    } else {
        let val = s.data[v[1]];
        if val.expiry {
            let d = now - (val.expires_at as i64);
            if d < i64::MIN || d > i64::MAX {
                None
            } else if d > 0 {
                Some(null_bulk_reply())
            } else {
                Some(text_bulk(val.value))
            }
        } else {
            Some(text_bulk(val.value))
        }
    }
}

/// The lines of `INFO replication`.
pub open spec fn info_lines(s: StoreModel, replid: Seq<char>) -> Seq<Seq<char>> {
    if s.config.contains_key("master_port"@) {
        seq!["role:slave"@]
    } else {
        seq![
            "role:master"@,
            "master_replid"@.push(':') + replid,
            "master_repl_offset"@.push(':') + "0"@,
        ]
    }
}

/// The reply to `CONFIG GET name`, or `None` where the command stops.
pub open spec fn spec_config(s: StoreModel, v: Seq<Seq<char>>) -> Option<Seq<u8>> {
    if v.len() < 2 || v[1] != "GET"@ || v.len() < 3 || !s.config.contains_key(v[2]) {
        None
    } else {
        Some(codec::array_bytes(seq![v[2], s.config[v[2]]]))
    }
}

/// The state and reply after the command `v`, with `now` the time in
/// milliseconds and `replid` the replication id a master reports; `None`
/// where handling stops (a missing argument, an unknown command or
/// subcommand, a failed lookup).
pub open spec fn spec_respond(s: StoreModel, v: Seq<Seq<char>>, now: i64, replid: Seq<char>) -> Option<
    (StoreModel, Seq<u8>),
> {
    if v.len() == 0 {
        None
    } else if v[0] == "ECHO"@ {
        if v.len() < 2 {
            None
        } else {
            Some((s, text_bulk(v[1])))
        }
    } else if v[0] == "PING"@ {
        Some((s, pong_reply()))
    } else if v[0] == "SET"@ {
        match spec_set(s, v, now) {
            Some(n) => Some((n, ok_reply())),
            None => None,
        }
    } else if v[0] == "GET"@ {
        match spec_get(s, v, now) {
            Some(b) => Some((s, b)),
            None => None,
        }
    } else if v[0] == "CONFIG"@ {
        match spec_config(s, v) {
            Some(b) => Some((s, b)),
            None => None,
        }
    } else if v[0] == "KEYS"@ {
        if v.len() < 2 || v[1] != "*"@ {
            None
        } else {
            Some((s, codec::array_bytes(s.order)))
        }
    } else if v[0] == "INFO"@ {
        if v.len() < 2 || v[1] != "replication"@ {
            None
        } else {
            Some((s, codec::bulk_string_bytes(codec::join_crlf(codec::utf8_pieces(info_lines(s, replid))))))
        }
    } else {
        None
    }
}

/// `r` and the store after the call agree with `outcome`; where handling
/// stops, the store is left as it was.
pub open spec fn matches_outcome(
    outcome: Option<(StoreModel, Seq<u8>)>,
    pre: StoreModel,
    post: StoreModel,
    r: Result<Vec<u8>, Abort>,
) -> bool {
    match outcome {
        Some((n, bytes)) => r matches Ok(b) && b@ == bytes && post == n,
        None => r is Err && post == pre,
    }
}

/// Answers the command `v` from the store, with `now` the time in
/// milliseconds and `replid` the replication id reported by a master.
pub fn respond(store: &mut Store, v: &Vec<String>, now: i64, replid: String) -> (r: Result<
    Vec<u8>,
    Abort,
>)
    requires
        old(store).wf(),
    ensures
        final(store).wf(),
        matches_outcome(
            spec_respond(old(store)@, store::string_views(v@), now, replid@),
            old(store)@,
            final(store)@,
            r,
        ),
{
    let ghost sv = store::string_views(v@);
    assert(forall|i: int| 0 <= i < v@.len() ==> #[trigger] sv[i] == v@[i]@);
    let mut ans: Vec<u8> = Vec::new();
    if v.len() == 0 {
        return Err(Abort);
    }
    if text_is(&v[0], "ECHO") {
        if v.len() < 2 {
            return Err(Abort);
        }
        push_bulk_string(&mut ans, v[1].as_str().as_bytes());
        return Ok(ans);
    }
    if text_is(&v[0], "PING") {
        append_bytes(&mut ans, &[43u8, 80u8, 79u8, 78u8, 71u8, 13u8, 10u8]);
        return Ok(ans);
    }
    if text_is(&v[0], "SET") {
        if v.len() < 3 {
            return Err(Abort);
        }
        let mut val = Value { value: v[2].clone(), expiry: false, expires_at: 0 };
        if v.len() > 3 {
            if v.len() < 5 {
                return Err(Abort);
            }
            let ms = match parse_unsigned_bytes(v[4].as_str().as_bytes(), u64::MAX) {
                Some(ms) => ms,
                None => return Err(Abort),
            };
            let base = now as u64;
            if ms > u64::MAX - base {
                return Err(Abort);
            }
            val.expires_at = base + ms;
            val.expiry = true;
        }
        map_insert(store, v[1].clone(), val);
        append_bytes(&mut ans, &[43u8, 79u8, 75u8, 13u8, 10u8]);
        return Ok(ans);
    }
    if text_is(&v[0], "GET") {
        if v.len() < 2 {
            return Err(Abort);
        }
        let val = match map_get(store, v[1].clone()) {
            Some(val) => val,
            None => return Err(Abort),
        };
        if val.expiry {
            let d: i128 = now as i128 - (#[verifier::truncate] (val.expires_at as i64)) as i128;
            if d < i64::MIN as i128 || d > i64::MAX as i128 {
                return Err(Abort);
            }
            if d > 0 {
                append_bytes(&mut ans, &[36u8, 45u8, 49u8, 13u8, 10u8]);
                return Ok(ans);
            }
        }
        push_bulk_string(&mut ans, val.value.as_str().as_bytes());
        return Ok(ans);
    }
    if text_is(&v[0], "CONFIG") {
        if v.len() < 2 || !text_is(&v[1], "GET") || v.len() < 3 {
            return Err(Abort);
        }
        let value = match map_config_get(store, v[2].clone()) {
            Some(value) => value,
            None => return Err(Abort),
        };
        let mut args: Vec<String> = Vec::new();
        args.push(v[2].clone());
        args.push(value);
        proof {
            assert(store::string_views(args@) =~= seq![sv[2], old(store)@.config[sv[2]]]);
        }
        return Ok(encode_array(args));
    }
    if text_is(&v[0], "KEYS") {
        if v.len() < 2 || !text_is(&v[1], "*") {
            return Err(Abort);
        }
        return Ok(encode_array(store.keys()));
    }
    if text_is(&v[0], "INFO") {
        if v.len() < 2 || !text_is(&v[1], "replication") {
            return Err(Abort);
        }
        let mut lines: Vec<String> = Vec::new();
        if store.config_contains("master_port") {
            lines.push("role:slave".to_owned());
        } else {
            lines.push("role:master".to_owned());
            lines.push(get_key_value_pair_string("master_replid".to_owned(), replid, ':'));
            lines.push(
                get_key_value_pair_string("master_repl_offset".to_owned(), "0".to_owned(), ':'),
            );
        }
        proof {
            assert(store::string_views(lines@) =~= info_lines(old(store)@, replid@));
        }
        return Ok(encode_bulk_string(lines));
    }
    Err(Abort)
}

/// `r` and the store after the call are those of answering `v` at time
/// `now` with replication id `id`, for a time and an id that the clock and
/// the random source can give.
pub open spec fn answered_with(
    pre: StoreModel,
    v: Seq<Seq<char>>,
    now: i64,
    id: Seq<char>,
    post: StoreModel,
    r: Result<Vec<u8>, Abort>,
) -> bool {
    &&& now >= 0
    &&& utils::is_clock_millis(now)
    &&& utils::is_replication_id(id)
    &&& matches_outcome(spec_respond(pre, v, now, id), pre, post, r)
}

/// Answers a parsed request: an array is answered as a command, at the
/// current time and with a fresh replication id; any other value stops.
pub fn encode(store: &mut Store, value: RESPTypes) -> (r: Result<Vec<u8>, Abort>)
    requires
        old(store).wf(),
    ensures
        final(store).wf(),
        match value {
            RESPTypes::Array(v) => exists|now: i64, id: Seq<char>|
                #[trigger] answered_with(old(store)@, store::string_views(v@), now, id, final(store)@, r),
            _ => r is Err && final(store)@ == old(store)@,
        },
{
    match value {
        RESPTypes::Array(v) => {
            let now = read_clock_millis();
            let replid = generate_random_string();
            let ghost id = replid@;
            let r = respond(store, &v, now, replid);
            assert(answered_with(old(store)@, store::string_views(v@), now, id, store@, r));
            r
        },
        _ => Err(Abort),
    }
}

/// Reads the value starting at `pos`: only arrays (`*`) are understood.
pub fn parse_redis_protocol(buf: &[u8], pos: usize) -> (r: Result<RedisResult, Abort>)
    requires
        buf@.len() <= isize::MAX,
    ensures
        pos >= buf@.len() ==> r is Err,
        pos < buf@.len() ==> if buf@[pos as int] == 42u8 {
            wire::array_result(r, wire::spec_array(buf@, pos + 1))
        } else {
            r matches Ok(Err(RESPError::UnknownStartingByte))
        },
{
    if pos >= buf.len() {
        return Err(Abort);
    }
    if buf[pos] == 42u8 {
        array(buf, pos + 1)
    } else {
        Ok(Err(RESPError::UnknownStartingByte))
    }
}

/// `r` and the store after handling a request agree with `outcome`.
pub open spec fn request_outcome(
    outcome: Option<(StoreModel, Seq<u8>)>,
    pre: StoreModel,
    post: StoreModel,
    r: Result<Option<Vec<u8>>, Abort>,
) -> bool {
    match outcome {
        Some((n, bytes)) => r matches Ok(Some(b)) && b@ == bytes && post == n,
        None => r is Err && post == pre,
    }
}

/// The request answered as the command `v` at a time and with an id that
/// the clock and the random source can give.
pub open spec fn request_answered_with(
    pre: StoreModel,
    v: Seq<Seq<char>>,
    now: i64,
    id: Seq<char>,
    post: StoreModel,
    r: Result<Option<Vec<u8>>, Abort>,
) -> bool {
    &&& now >= 0
    &&& utils::is_clock_millis(now)
    &&& utils::is_replication_id(id)
    &&& request_outcome(spec_respond(pre, v, now, id), pre, post, r)
}

/// Handles one request buffer: `Ok(Some(reply))` for an answered command,
/// `Ok(None)` for an empty buffer, one that does not start with `*`, or an
/// array of no items, and `Err(Abort)` where the handling stops.
pub fn parse_and_decode(store: &mut Store, buf: &[u8]) -> (r: Result<Option<Vec<u8>>, Abort>)
    requires
        old(store).wf(),
        buf@.len() <= isize::MAX,
    ensures
        final(store).wf(),
        buf@.len() == 0 ==> (r matches Ok(None)) && final(store)@ == old(store)@,
        buf@.len() > 0 && buf@[0] == 42u8 ==> (wire::spec_array(buf@, 1) matches ArrayShape::Items(
            items,
        ) ==> wire::valid_texts_kept(items)),
        buf@.len() > 0 && buf@[0] != 42u8 ==> (r matches Ok(None)) && final(store)@ == old(store)@,
        buf@.len() > 0 && buf@[0] == 42u8 ==> match wire::spec_array(buf@, 1) {
            ArrayShape::Abort => r is Err && final(store)@ == old(store)@,
            ArrayShape::Empty => (r matches Ok(None)) && final(store)@ == old(store)@,
            ArrayShape::Items(items) => exists|now: i64, id: Seq<char>|
                #[trigger] request_answered_with(
                    old(store)@,
                    wire::lossy_texts(items),
                    now,
                    id,
                    final(store)@,
                    r,
                ),
        },
{
    if buf.len() == 0 {
        return Ok(None);
    }
    match parse_redis_protocol(buf, 0) {
        Err(a) => Err(a),
        Ok(Ok(Some((_pos, value)))) => {
            let ghost gv = value;
            let r = encode(store, value);
            let ghost gr = r;
            let rr = match r {
                Ok(b) => Ok(Some(b)),
                Err(a) => Err(a),
            };
            proof {
                if buf@[0] == 42u8 {
                    if let ArrayShape::Items(items) = wire::spec_array(buf@, 1) {
                        if let RESPTypes::Array(v) = gv {
                            wire::lemma_lossy_texts(v@, items);
                            let (now, id) = choose|now: i64, id: Seq<char>|
                                answered_with(old(store)@, store::string_views(v@), now, id, store@, gr);
                            assert(request_answered_with(old(store)@, wire::lossy_texts(items), now, id, store@, rr));
                        }
                    }
                }
            }
            rr
        },
        Ok(_) => Ok(None),
    }
}

/// The command names are distinct texts.
proof fn lemma_command_names()
    ensures
        "SET"@ != "ECHO"@,
        "SET"@ != "PING"@,
        "GET"@ != "ECHO"@,
        "GET"@ != "PING"@,
        "GET"@ != "SET"@,
        "CONFIG"@ != "SET"@,
        "KEYS"@ != "SET"@,
        "INFO"@ != "SET"@,
        "ECHO"@ != "SET"@,
        "PING"@ != "SET"@,
        "KEYS"@ != "ECHO"@,
        "KEYS"@ != "PING"@,
        "KEYS"@ != "GET"@,
        "KEYS"@ != "CONFIG"@,
        "INFO"@ != "ECHO"@,
        "INFO"@ != "PING"@,
        "INFO"@ != "GET"@,
        "INFO"@ != "CONFIG"@,
        "INFO"@ != "KEYS"@,
{
    reveal_strlit("SET");
    reveal_strlit("GET");
    reveal_strlit("ECHO");
    reveal_strlit("PING");
    reveal_strlit("CONFIG");
    reveal_strlit("KEYS");
    reveal_strlit("INFO");
    assert("SET"@[0] != "ECHO"@[0]);
    assert("SET"@[0] != "PING"@[0]);
    assert("GET"@[0] != "ECHO"@[0]);
    assert("GET"@[0] != "PING"@[0]);
    assert("GET"@[0] != "SET"@[0]);
    assert("CONFIG"@.len() != "SET"@.len());
    assert("KEYS"@.len() != "SET"@.len());
    assert("INFO"@.len() != "SET"@.len());
    assert("KEYS"@[0] != "ECHO"@[0]);
    assert("KEYS"@[0] != "PING"@[0]);
    assert("KEYS"@[0] != "GET"@[0]);
    assert("KEYS"@[0] != "CONFIG"@[0]);
    assert("INFO"@[0] != "ECHO"@[0]);
    assert("INFO"@[0] != "PING"@[0]);
    assert("INFO"@[0] != "GET"@[0]);
    assert("INFO"@[0] != "CONFIG"@[0]);
    assert("INFO"@[0] != "KEYS"@[0]);
}

/// `SET key value` answers `+OK`, and a later `GET key` answers the value,
/// whatever the times and ids.
pub proof fn theorem_get_after_set(
    s: StoreModel,
    k: Seq<char>,
    v: Seq<char>,
    now1: i64,
    now2: i64,
    id1: Seq<char>,
    id2: Seq<char>,
)
    ensures
        ({
            let stored = s.insert(k, ValueView { value: v, expiry: false, expires_at: 0 });
            &&& spec_respond(s, seq!["SET"@, k, v], now1, id1) == Some((stored, ok_reply()))
            &&& spec_respond(stored, seq!["GET"@, k], now2, id2) == Some((stored, text_bulk(v)))
        }),
{
    lemma_command_names();
}

/// `SET key value PX ms` at time `t1` answers `+OK`; a later `GET key` at
/// `t2` answers the value while `t2 <= t1 + ms`, and the null bulk string
/// after that.
pub proof fn theorem_get_after_set_with_expiry(
    s: StoreModel,
    k: Seq<char>,
    v: Seq<char>,
    px: Seq<char>,
    ms_text: Seq<char>,
    ms: nat,
    t1: i64,
    t2: i64,
    id1: Seq<char>,
    id2: Seq<char>,
)
    requires
        digits::parse_unsigned(encode_utf8(ms_text), u64::MAX as nat) == Some(ms),
        0 <= t1,
        0 <= t2,
        t1 + ms <= i64::MAX,
    ensures
        ({
            let stored = s.insert(
                k,
                ValueView { value: v, expiry: true, expires_at: (t1 + ms) as u64 },
            );
            &&& spec_respond(s, seq!["SET"@, k, v, px, ms_text], t1, id1) == Some((stored, ok_reply()))
            &&& spec_respond(stored, seq!["GET"@, k], t2, id2) == Some(
                (stored, if t2 <= t1 + ms {
                    text_bulk(v)
                } else {
                    null_bulk_reply()
                }),
            )
        }),
{
    lemma_command_names();
    assert(unsigned_millis(t1) == t1);
    let e: u64 = (t1 + ms) as u64;
    assert(e == t1 + ms);
    assert((e as i64) == e);
}

/// Setting one key does not change how any other key reads.
pub proof fn theorem_set_keeps_other_keys(
    s: StoreModel,
    k: Seq<char>,
    x: ValueView,
    other: Seq<char>,
    now: i64,
)
    requires
        other != k,
    ensures
        spec_get(s.insert(k, x), seq!["GET"@, other], now) == spec_get(s, seq!["GET"@, other], now),
{
}

/// Only `SET` changes the store.
pub proof fn theorem_only_set_writes(s: StoreModel, v: Seq<Seq<char>>, now: i64, id: Seq<char>)
    requires
        v.len() > 0,
        v[0] != "SET"@,
    ensures
        spec_respond(s, v, now, id) matches Some((n, _)) ==> n == s,
{
}

/// Every answered command leaves the store well formed, so `KEYS *` lists
/// every stored key exactly once.
pub proof fn theorem_respond_keeps_keys_exact(s: StoreModel, v: Seq<Seq<char>>, now: i64, id: Seq<char>)
    requires
        s.wf(),
    ensures
        spec_respond(s, v, now, id) matches Some((n, _)) ==> n.wf(),
        spec_respond(s, seq!["KEYS"@, "*"@], now, id) == Some((s, codec::array_bytes(s.order))),
{
    lemma_command_names();
    if v.len() > 0 && v[0] == "SET"@ {
        if let Some(n) = spec_set(s, v, now) {
            if v.len() > 3 {
                let ms = digits::parse_unsigned(encode_utf8(v[4]), u64::MAX as nat).unwrap();
                store::theorem_insert_read_after_write(
                    s,
                    v[1],
                    ValueView { value: v[2], expiry: true, expires_at: (unsigned_millis(now) + ms) as u64 },
                );
            } else {
                store::theorem_insert_read_after_write(
                    s,
                    v[1],
                    ValueView { value: v[2], expiry: false, expires_at: 0 },
                );
            }
        }
    }
}

/// A RESP bulk string spelled out: `$`, the decimal count of the payload's
/// bytes, `\r\n`, the payload, `\r\n`.
pub open spec fn resp_bulk(payload: Seq<u8>) -> Seq<u8> {
    seq![36u8] + digits::decimal(payload.len()) + seq![13u8, 10u8] + payload + seq![13u8, 10u8]
}

/// `ECHO x` leaves the store alone and answers the bulk string of the UTF-8
/// bytes of `x`, whose header counts those bytes (not the characters).
pub proof fn theorem_echo_answers_bytes(s: StoreModel, x: Seq<char>, now: i64, id: Seq<char>)
    ensures
        spec_respond(s, seq!["ECHO"@, x], now, id) == Some((s, resp_bulk(encode_utf8(x)))),
        resp_bulk(encode_utf8(x)).len() == 5 + digits::decimal(encode_utf8(x).len()).len()
            + encode_utf8(x).len(),
{
    assert(codec::crlf() == seq![13u8, 10u8]);
}

/// `GET key` after `SET key value` answers the bulk string of the value's
/// UTF-8 bytes, whose header counts those bytes.
pub proof fn theorem_get_answers_bytes(s: StoreModel, k: Seq<char>, v: Seq<char>, now: i64, id: Seq<char>)
    ensures
        ({
            let stored = s.insert(k, ValueView { value: v, expiry: false, expires_at: 0 });
            spec_respond(stored, seq!["GET"@, k], now, id) == Some((stored, resp_bulk(encode_utf8(v))))
        }),
{
    lemma_command_names();
    assert(codec::crlf() == seq![13u8, 10u8]);
}

/// The text of `INFO replication`: a replica (a store whose configuration
/// has `master_port`) reports `role:slave` alone; any other store reports
/// `role:master`, its replication id and offset `0`, one per line.
pub open spec fn info_text(s: StoreModel, id: Seq<char>) -> Seq<u8> {
    if s.config.contains_key("master_port"@) {
        encode_utf8("role:slave"@)
    } else {
        encode_utf8("role:master"@) + seq![13u8, 10u8] + encode_utf8("master_replid"@.push(':') + id)
            + seq![13u8, 10u8] + encode_utf8("master_repl_offset"@.push(':') + "0"@)
    }
}

/// `INFO replication` leaves the store alone and answers the bulk string
/// of `info_text`: `role:slave` exactly when the configuration has a
/// `master_port` entry.
pub proof fn theorem_info_reports_role(s: StoreModel, now: i64, id: Seq<char>)
    ensures
        spec_respond(s, seq!["INFO"@, "replication"@], now, id) == Some((s, resp_bulk(info_text(s, id)))),
{
    lemma_command_names();
    assert(codec::crlf() == seq![13u8, 10u8]);
    let lines = info_lines(s, id);
    let p = codec::utf8_pieces(lines);
    if s.config.contains_key("master_port"@) {
        assert(p.len() == 1);
        assert(codec::join_crlf(p) == p[0]);
    } else {
        assert(p.len() == 3);
        assert(p.drop_last().len() == 2);
        assert(p.drop_last().drop_last().len() == 1);
        assert(codec::join_crlf(p.drop_last().drop_last()) == p[0]);
        assert(p.drop_last().last() == p[1]);
        assert(codec::join_crlf(p.drop_last()) == p[0] + codec::crlf() + p[1]);
        assert(codec::join_crlf(p) =~= info_text(s, id));
    }
}

/// Setting any configuration entry other than `master_port` (such as
/// `port`) does not change the answer to `INFO replication`.
pub proof fn theorem_info_ignores_other_settings(
    s: StoreModel,
    k: Seq<char>,
    v: Seq<char>,
    now: i64,
    id: Seq<char>,
)
    requires
        k != "master_port"@,
    ensures
        spec_respond(s.config_insert(k, v), seq!["INFO"@, "replication"@], now, id).unwrap().1
            == spec_respond(s, seq!["INFO"@, "replication"@], now, id).unwrap().1,
{
    theorem_info_reports_role(s, now, id);
    theorem_info_reports_role(s.config_insert(k, v), now, id);
    assert(s.config_insert(k, v).config.contains_key("master_port"@) == s.config.contains_key(
        "master_port"@,
    ));
}

} // verus!
