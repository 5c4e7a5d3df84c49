//! The replica side of the handshake: what the master answers, and the
//! `REPLCONF` commands that a master receives from a replica.

use crate::codec::append_bytes;
use crate::parsers::protocol;
use crate::parsers::wire;
use crate::parsers::wire::{array, word, ArrayShape};
use crate::search::{bytes_equal, text_is};
use crate::server::handshake;
use crate::server::handshake::{handshake_2, handshake_3};
use crate::store;
use crate::store::{map_config_get, Store, StoreModel};
use crate::types::{Abort, BufSplit, RESPError, RESPTypes, RedisResult};
use vstd::prelude::*;
use vstd::slice::slice_subrange;

verus! {

/// `PONG`
pub open spec fn pong_text() -> Seq<u8> {
    seq![80u8, 79u8, 78u8, 71u8]
}

/// `OK`
pub open spec fn ok_text() -> Seq<u8> {
    seq![79u8, 75u8]
}

/// The port this server listens on: the `port` setting, else `6379`.
pub open spec fn own_port(s: StoreModel) -> Seq<char> {
    if s.config.contains_key("port"@) {
        s.config["port"@]
    } else {
        "6379"@
    }
}

/// The answer to a simple string `w` from the master: `PONG` is followed
/// by `REPLCONF listening-port`, the first `OK` by `REPLCONF capa psync2`
/// (and the handshake flag is set), anything else is echoed back.
pub open spec fn spec_reply_to_status(s: StoreModel, w: Seq<u8>) -> (StoreModel, Seq<u8>) {
    if w == pong_text() {
        (s, handshake::replconf_port_request(own_port(s)))
    } else if w == ok_text() && !s.handshake_ok {
        (s.acknowledge(), handshake::replconf_capa_request())
    } else {
        (s, w)
    }
}

/// The answer to the command `v` during the handshake, or `None` where
/// handling stops.
pub open spec fn spec_reply_to_command(s: StoreModel, v: Seq<Seq<char>>) -> Option<Seq<u8>> {
    if v.len() == 0 {
        None
    } else if v[0] == "PONG"@ {
        Some(handshake::replconf_port_request(own_port(s)))
    } else if v[0] == "REPLCONF"@ {
        if v.len() < 3 {
            None
        } else if v[1] == "listening-port"@ {
            Some(protocol::ok_reply())
        } else if v[1] == "capa"@ && v[2] == "psync2"@ {
            Some(protocol::ok_reply())
        } else {
            None
        }
    } else {
        None
    }
}

/// Reads a simple string whose text starts at `pos` (just after the `+`);
/// `Ok(None)` when no complete line is there.
pub fn simple_string(buf: &[u8], pos: usize) -> (r: RedisResult)
    requires
        buf@.len() <= isize::MAX,
    ensures
        match wire::spec_word(buf@, pos as int) {
            Some((next, s, e)) => r matches Ok(Some((n, RESPTypes::String(BufSplit(s2, e2))))) && n
                == next && s2 == s && e2 == e,
            None => r matches Ok(None),
        },
{
    match word(buf, pos) {
        Some((p, w)) => Ok(Some((p, RESPTypes::String(w)))),
        None => Ok(None),
    }
}

/// Reads the value starting at `pos`: simple strings (`+`) and arrays (`*`).
pub fn parse_redis_protocol(buf: &[u8], pos: usize) -> (r: Result<RedisResult, Abort>)
    requires
        buf@.len() <= isize::MAX,
    ensures
        pos >= buf@.len() ==> r is Err,
        pos < buf@.len() ==> if buf@[pos as int] == 43u8 {
            match wire::spec_word(buf@, pos + 1) {
                Some((next, s, e)) => r matches Ok(Ok(Some((n, RESPTypes::String(BufSplit(s2, e2))))))
                    && n == next && s2 == s && e2 == e,
                None => r matches Ok(Ok(None)),
            }
        } else if buf@[pos as int] == 42u8 {
            wire::array_result(r, wire::spec_array(buf@, pos + 1))
        } else {
            r matches Ok(Err(RESPError::UnknownStartingByte))
        },
{
    if pos >= buf.len() {
        return Err(Abort);
    }
    if buf[pos] == 43u8 {
        Ok(simple_string(buf, pos + 1))
    } else if buf[pos] == 42u8 {
        array(buf, pos + 1)
    } else {
        Ok(Err(RESPError::UnknownStartingByte))
    }
}

/// The port this server listens on, as `own_port` describes it.
fn listening_port(store: &Store) -> (r: String)
    ensures
        r@ == own_port(store@),
{
    match map_config_get(store, "port".to_owned()) {
        Some(p) => p,
        None => "6379".to_owned(),
    }
}

/// The handshake answer to a parsed value: see `spec_reply_to_status` for
/// a simple string (whose bounds must lie in `buf`) and
/// `spec_reply_to_command` for an array; other values stop the handling.
pub fn encode(store: &mut Store, buf: &[u8], value: RESPTypes, flag: bool) -> (r: Result<Vec<u8>, Abort>)
    requires
        old(store).wf(),
    ensures
        final(store).wf(),
        match value {
            RESPTypes::Array(v) => match spec_reply_to_command(old(store)@, store::string_views(v@)) {
                Some(b) => (r matches Ok(x) && x@ == b) && final(store)@ == old(store)@,
                None => r is Err && final(store)@ == old(store)@,
            },
            RESPTypes::String(BufSplit(a, b)) => if a <= b <= buf@.len() {
                let (n, reply) = spec_reply_to_status(old(store)@, buf@.subrange(a as int, b as int));
                (r matches Ok(x) && x@ == reply) && final(store)@ == n
            } else {
                r is Err && final(store)@ == old(store)@
            },
            _ => r is Err && final(store)@ == old(store)@,
        },
{
    match value {
        RESPTypes::Array(v) => {
            let ghost sv = store::string_views(v@);
            assert(forall|i: int| 0 <= i < v@.len() ==> #[trigger] sv[i] == v@[i]@);
            let mut ans: Vec<u8> = Vec::new();
            if v.len() == 0 {
                return Err(Abort);
            }
            if text_is(&v[0], "PONG") {
                let slave_port = listening_port(store);
                return Ok(handshake_2(slave_port));
            }
            if text_is(&v[0], "REPLCONF") {
                if v.len() < 3 {
                    return Err(Abort);
                }
                if text_is(&v[1], "listening-port") {
                    append_bytes(&mut ans, &[43u8, 79u8, 75u8, 13u8, 10u8]);
                    return Ok(ans);
                }
                if text_is(&v[1], "capa") && text_is(&v[2], "psync2") {
                    append_bytes(&mut ans, &[43u8, 79u8, 75u8, 13u8, 10u8]);
                    return Ok(ans);
                }
                return Err(Abort);
            }
            Err(Abort)
        },
        RESPTypes::String(s) => {
            if s.0 > s.1 || s.1 > buf.len() {
                return Err(Abort);
            }
            let text = slice_subrange(buf, s.0, s.1);
            if bytes_equal(text, &[80u8, 79u8, 78u8, 71u8]) {
                let slave_port = listening_port(store);
                return Ok(handshake_2(slave_port));
            }
            if bytes_equal(text, &[79u8, 75u8]) && !store.handshake_ok() {
                store.acknowledge();
                return Ok(handshake_3());
            }
            let mut ans: Vec<u8> = Vec::new();
            append_bytes(&mut ans, text);
            Ok(ans)
        },
        _ => Err(Abort),
    }
}

/// Handles one buffer received during the handshake: ignored buffers get
/// `Ok(None)`, the others are answered as `spec_handshake_request` says.
pub fn parse_and_decode_handshake(store: &mut Store, buf: &[u8], flag: bool) -> (r: Result<
    Option<Vec<u8>>,
    Abort,
>)
    requires
        old(store).wf(),
        buf@.len() <= isize::MAX,
    ensures
        final(store).wf(),
        buf@.len() > 0 && buf@[0] == 42u8 ==> (wire::spec_array(buf@, 1) matches ArrayShape::Items(
            items,
        ) ==> wire::valid_texts_kept(items)),
        spec_handshake_request_ignored(buf@) ==> (r matches Ok(None)) && final(store)@ == old(
            store,
        )@,
        !spec_handshake_request_ignored(buf@) ==> protocol::request_outcome(
            spec_handshake_request(old(store)@, buf@),
            old(store)@,
            final(store)@,
            r,
        ),
        handshake_step(old(store)@, buf@) == (final(store)@, match r {
            Ok(Some(b)) => Some(b@),
            _ => None,
        }),
{
    if buf.len() == 0 {
        return Ok(None);
    }
    match parse_redis_protocol(buf, 0) {
        Err(a) => Err(a),
        Ok(Ok(Some((_pos, value)))) => {
            let ghost gv = value;
            let r = encode(store, buf, value, flag);
            let ghost gr = r;
            let rr = match r {
                Ok(b) => Ok(Some(b)),
                Err(a) => Err(a),
            };
            proof {
                if buf@[0] == 42u8 {
                    if let ArrayShape::Items(items) = wire::spec_array(buf@, 1) {
                        if let RESPTypes::Array(v) = gv {
                            wire::lemma_lossy_texts(v@, items);
                        }
                    }
                } else if buf@[0] == 43u8 {
                    wire::lemma_word_bounds(buf@, 1);
                }
            }
            rr
        },
        Ok(_) => Ok(None),
    }
}

/// Whether a handshake buffer gets no answer: it is empty, starts with
/// neither `+` nor `*`, holds no complete line after `+`, or is an array
/// of no items.
pub open spec fn spec_handshake_request_ignored(buf: Seq<u8>) -> bool {
    ||| buf.len() == 0
    ||| (buf[0] != 43u8 && buf[0] != 42u8)
    ||| (buf[0] == 43u8 && wire::spec_word(buf, 1) is None)
    ||| (buf[0] == 42u8 && wire::spec_array(buf, 1) is Empty)
}

/// The state and answer for a handshake buffer that is not ignored, or
/// `None` where handling stops.
pub open spec fn spec_handshake_request(s: StoreModel, buf: Seq<u8>) -> Option<(StoreModel, Seq<u8>)> {
    if buf.len() > 0 && buf[0] == 43u8 {
        match wire::spec_word(buf, 1) {
            Some((_, a, b)) => Some(spec_reply_to_status(s, buf.subrange(a, b))),
            None => None,
        }
    } else if buf.len() > 0 && buf[0] == 42u8 {
        match wire::spec_array(buf, 1) {
            ArrayShape::Items(items) => match spec_reply_to_command(s, wire::lossy_texts(items)) {
                Some(b) => Some((s, b)),
                None => None,
            },
            _ => None,
        }
    } else {
        None
    }
}

/// `REPLCONF capa psync2` is sent once: the first `+OK` from the master
/// gets it and sets the handshake flag, any later `+OK` is echoed back.
pub proof fn theorem_capa_sent_once(s: StoreModel)
    requires
        !s.handshake_ok,
    ensures
        spec_reply_to_status(s, ok_text()) == (s.acknowledge(), handshake::replconf_capa_request()),
        spec_reply_to_status(s.acknowledge(), ok_text()) == (s.acknowledge(), ok_text()),
{
    assert(ok_text() != pong_text()) by {
        assert(ok_text().len() != pong_text().len());
    }
}

/// The state after one handshake buffer, and its answer if it gets one:
/// ignored buffers and buffers whose handling stops get none and leave the
/// state as it was.
pub open spec fn handshake_step(s: StoreModel, buf: Seq<u8>) -> (StoreModel, Option<Seq<u8>>) {
    if spec_handshake_request_ignored(buf) {
        (s, None)
    } else {
        match spec_handshake_request(s, buf) {
            Some((n, r)) => (n, Some(r)),
            None => (s, None),
        }
    }
}

/// The state after a sequence of handshake buffers, and the answer to each.
pub open spec fn handshake_run(s: StoreModel, bufs: Seq<Seq<u8>>) -> (StoreModel, Seq<Option<Seq<u8>>>)
    decreases bufs.len(),
{
    if bufs.len() == 0 {
        (s, Seq::empty())
    } else {
        let (t, rs) = handshake_run(s, bufs.drop_last());
        let (u, r) = handshake_step(t, bufs.last());
        (u, rs.push(r))
    }
}

/// `+OK\r\n`, the master's acknowledgement.
pub open spec fn ok_status() -> Seq<u8> {
    seq![43u8, 79u8, 75u8, 13u8, 10u8]
}

/// Whether one of the first `i` answers is `REPLCONF capa psync2`.
pub open spec fn capa_answered_before(rs: Seq<Option<Seq<u8>>>, i: int) -> bool {
    exists|j: int| 0 <= j < i && #[trigger] rs[j] == Some(handshake::replconf_capa_request())
}

/// One handshake buffer: the flag is never cleared; the capabilities
/// request is answered exactly when the flag goes from unset to set; and
/// `+OK\r\n` is answered by the capabilities request while the flag is
/// unset, by `OK` after.
pub proof fn lemma_handshake_step(s: StoreModel, buf: Seq<u8>)
    ensures
        ({
            let (n, r) = handshake_step(s, buf);
            &&& s.handshake_ok ==> n.handshake_ok
            &&& (r == Some(handshake::replconf_capa_request())) == (!s.handshake_ok && n.handshake_ok)
            &&& buf == ok_status() ==> (n, r) == (if s.handshake_ok {
                (s, Some(ok_text()))
            } else {
                (s.acknowledge(), Some(handshake::replconf_capa_request()))
            })
        }),
{
    let capa = handshake::replconf_capa_request();
    handshake::lemma_capa_request_shape();
    handshake::lemma_port_request_is_not_capa_request(own_port(s));
    assert(protocol::ok_reply().len() == 5);
    assert(ok_text() != pong_text()) by {
        assert(ok_text().len() != pong_text().len());
    }
    if buf.len() > 0 && buf[0] == 43u8 {
        wire::lemma_word_text_no_cr(buf, 1);
        wire::lemma_word_bounds(buf, 1);
        if let Some((_, a, b)) = wire::spec_word(buf, 1) {
            let w = buf.subrange(a, b);
            if w == capa {
                assert(w[2] == buf[a + 2]);
            }
        }
    }
    if buf == ok_status() {
        wire::lemma_word_at(buf, 1, 3);
        assert(buf.subrange(1, 3) =~= ok_text());
    }
}

/// Over any sequence of handshake buffers, `REPLCONF capa psync2` is
/// answered at most once, and never when the flag was already set; each
/// `+OK\r\n` is answered by it until it has been sent, and by `OK` after;
/// the flag ends set exactly when it was set at the start or the request
/// was sent.
pub proof fn theorem_capa_sent_at_most_once(s: StoreModel, bufs: Seq<Seq<u8>>)
    ensures
        ({
            let (e, rs) = handshake_run(s, bufs);
            let capa = handshake::replconf_capa_request();
            &&& rs.len() == bufs.len()
            &&& e.handshake_ok == (s.handshake_ok || capa_answered_before(rs, rs.len() as int))
            &&& forall|i: int, j: int|
                0 <= i < j < rs.len() && rs[i] == Some(capa) ==> rs[j] != Some(capa)
            &&& s.handshake_ok ==> forall|i: int| 0 <= i < rs.len() ==> rs[i] != Some(capa)
            &&& forall|i: int|
                0 <= i < bufs.len() && bufs[i] == ok_status() ==> rs[i] == Some(
                    if s.handshake_ok || capa_answered_before(rs, i) {
                        ok_text()
                    } else {
                        capa
                    },
                )
        }),
    decreases bufs.len(),
{
    if bufs.len() > 0 {
        let capa = handshake::replconf_capa_request();
        let b0 = bufs.drop_last();
        theorem_capa_sent_at_most_once(s, b0);
        let (t, rs0) = handshake_run(s, b0);
        let (u, r) = handshake_step(t, bufs.last());
        lemma_handshake_step(t, bufs.last());
        let rs = rs0.push(r);
        let n = rs0.len() as int;
        assert(handshake_run(s, bufs) == (u, rs));
        assert forall|i: int| 0 <= i <= n implies capa_answered_before(rs, i) == capa_answered_before(rs0, i)
            by {
            if capa_answered_before(rs0, i) {
                let j = choose|j: int| 0 <= j < i && #[trigger] rs0[j] == Some(capa);
                assert(rs[j] == rs0[j]);
            }
            if capa_answered_before(rs, i) {
                let j = choose|j: int| 0 <= j < i && #[trigger] rs[j] == Some(capa);
                assert(rs0[j] == rs[j]);
            }
        }
        if r == Some(capa) {
            assert(rs[n] == Some(capa));
            assert(capa_answered_before(rs, n + 1));
        } else if capa_answered_before(rs, n + 1) {
            let j = choose|j: int| 0 <= j < n + 1 && #[trigger] rs[j] == Some(capa);
            assert(j < n);
            assert(rs0[j] == Some(capa));
            assert(capa_answered_before(rs0, n));
        }
        assert forall|i: int, j: int| 0 <= i < j < rs.len() && rs[i] == Some(capa) implies rs[j] != Some(capa) by {
            if j == n {
                assert(rs0[i] == Some(capa));
                assert(capa_answered_before(rs0, n));
            } else {
                assert(rs0[i] == rs[i] && rs0[j] == rs[j]);
            }
        }
        assert forall|i: int| 0 <= i < bufs.len() && bufs[i] == ok_status() implies rs[i] == Some(
            if s.handshake_ok || capa_answered_before(rs, i) {
                ok_text()
            } else {
                capa
            },
        ) by {
            if i < n {
                assert(b0[i] == bufs[i]);
                assert(rs[i] == rs0[i]);
            }
        }
        assert forall|i: int| s.handshake_ok && 0 <= i < rs.len() implies rs[i] != Some(capa) by {
            if i < n {
                assert(rs[i] == rs0[i]);
            }
        }
    }
}

/// The `flag` argument of `parse_and_decode_handshake` changes nothing:
/// its contract fixes the answer and the new state by `handshake_step`,
/// which depends on the state and the buffer alone, so two calls with the
/// same state and buffer give the same answer and state whatever the flags.
pub proof fn theorem_flag_is_ignored(
    pre: StoreModel,
    buf: Seq<u8>,
    post1: StoreModel,
    reply1: Option<Seq<u8>>,
    post2: StoreModel,
    reply2: Option<Seq<u8>>,
)
    requires
        handshake_step(pre, buf) == (post1, reply1),
        handshake_step(pre, buf) == (post2, reply2),
    ensures
        post1 == post2,
        reply1 == reply2,
{
}

} // verus!
