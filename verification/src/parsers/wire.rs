//! The line-oriented reading of RESP requests shared by the command
//! parser and the replica handshake parser.

use crate::digits;
use crate::digits::parse_unsigned_bytes;
use crate::search;
use crate::store;
use crate::trusted;
use crate::trusted::{memchr_first, string_from_utf8_lossy};
use crate::types::{BufSplit, RESPError, RESPTypes, RedisResult, Abort};
use vstd::prelude::*;
use vstd::utf8::*;
use vstd::slice::slice_subrange;

verus! {

/// The line starting at `pos`: the position after its `\r\n`, and the
/// bounds of its text. `None` when `pos` is at or past the end, when no
/// `\r` follows, or when the `\r` found at offset `end` from `pos` fails the
/// check `end + 1 < buf.len()` (an offset compared with the whole length).
pub open spec fn spec_word(buf: Seq<u8>, pos: int) -> Option<(int, int, int)> {
    if buf.len() <= pos {
        None
    } else {
        match search::first_index_of(buf.subrange(pos, buf.len() as int), 13u8) {
            Some(end) => if end + 1 < buf.len() {
                Some((pos + end + 2, pos, pos + end))
            } else {
                None
            },
            None => None,
        }
    }
}

/// The bounds of `count` lines read one after another from `pos`, with the
/// position after the last; `None` when one of them is missing.
pub open spec fn spec_lines(buf: Seq<u8>, pos: int, count: nat) -> Option<(int, Seq<(int, int)>)>
    decreases count,
{
    if count == 0 {
        Some((pos, Seq::empty()))
    } else {
        match spec_lines(buf, pos, (count - 1) as nat) {
            Some((p, spans)) => match spec_word(buf, p) {
                Some((next, s, e)) => Some((next, spans.push((s, e)))),
                None => None,
            },
            None => None,
        }
    }
}

/// The texts of the odd-numbered lines: a RESP array of bulk strings
/// alternates length lines and item lines.
pub open spec fn odd_items(buf: Seq<u8>, spans: Seq<(int, int)>) -> Seq<Seq<u8>> {
    Seq::new(spans.len() / 2, |k: int| buf.subrange(spans[2 * k + 1].0, spans[2 * k + 1].1))
}

/// How an array request reads.
pub enum ArrayShape {
    /// The reading stops: a missing line, a count that is not a number
    /// below 128.
    Abort,
    /// The count is zero.
    Empty,
    /// The item texts.
    Items(Seq<Seq<u8>>),
}

/// The array whose count line starts at `pos` (just after the `*`). The
/// item lines are read from `pos` plus the position after the count line,
/// as the count line's end is added to the start once more.
pub open spec fn spec_array(buf: Seq<u8>, pos: int) -> ArrayShape {
    match spec_word(buf, pos) {
        None => ArrayShape::Abort,
        Some((next, s, e)) => match digits::parse_unsigned(buf.subrange(s, e), 255) {
            None => ArrayShape::Abort,
            Some(n) => if n > 127 {
                ArrayShape::Abort
            } else {
                match spec_lines(buf, pos + next, 2 * n) {
                    None => ArrayShape::Abort,
                    Some((_, spans)) => if n == 0 {
                        ArrayShape::Empty
                    } else {
                        ArrayShape::Items(odd_items(buf, spans))
                    },
                }
            },
        },
    }
}

/// A text read from some bytes: their lossy UTF-8 text, whose bytes are
/// the bytes read whenever those are valid UTF-8.
pub open spec fn text_read_from(t: Seq<char>, b: Seq<u8>) -> bool {
    &&& t == trusted::utf8_lossy(b)
    &&& valid_utf8(b) ==> encode_utf8(t) == b
}

/// The strings of a parsed array are the lossy UTF-8 texts of `items`.
pub open spec fn strings_of(v: Seq<String>, items: Seq<Seq<u8>>) -> bool {
    &&& v.len() == items.len()
    &&& forall|k: int| 0 <= k < items.len() ==> text_read_from(#[trigger] v[k]@, items[k])
}

/// The lossy UTF-8 texts of the items.
pub open spec fn lossy_texts(items: Seq<Seq<u8>>) -> Seq<Seq<char>> {
    items.map_values(|b: Seq<u8>| trusted::utf8_lossy(b))
}

/// Each lossy text of valid UTF-8 bytes has exactly those bytes.
pub open spec fn valid_texts_kept(items: Seq<Seq<u8>>) -> bool {
    forall|k: int|
        0 <= k < items.len() && valid_utf8(items[k]) ==> encode_utf8(#[trigger] lossy_texts(items)[k])
            == items[k]
}

/// Strings read from `items` have the views `lossy_texts(items)`, and
/// those keep the bytes of every item that is valid UTF-8.
pub proof fn lemma_lossy_texts(v: Seq<String>, items: Seq<Seq<u8>>)
    requires
        strings_of(v, items),
    ensures
        store::string_views(v) == lossy_texts(items),
        valid_texts_kept(items),
{
    assert forall|k: int| 0 <= k < items.len() implies #[trigger] store::string_views(v)[k] == lossy_texts(
        items,
    )[k] by {
        assert(text_read_from(v[k]@, items[k]));
    }
    assert(store::string_views(v) =~= lossy_texts(items));
    assert forall|k: int| 0 <= k < items.len() && valid_utf8(items[k]) implies encode_utf8(
        #[trigger] lossy_texts(items)[k],
    ) == items[k] by {
        assert(text_read_from(v[k]@, items[k]));
    }
}

/// What `array` gives for an array shape.
pub open spec fn array_result(r: Result<RedisResult, Abort>, shape: ArrayShape) -> bool {
    match shape {
        ArrayShape::Abort => r is Err,
        ArrayShape::Empty => r matches Ok(Err(RESPError::IntParseFailure)),
        ArrayShape::Items(items) => r matches Ok(Ok(Some((n, RESPTypes::Array(v))))) && n
            == items.len() && strings_of(v@, items),
    }
}

/// Reads the line starting at `pos`; see `spec_word`.
pub fn word(buf: &[u8], pos: usize) -> (r: Option<(usize, BufSplit)>)
    requires
        buf@.len() <= isize::MAX,
    ensures
        match spec_word(buf@, pos as int) {
            Some((next, s, e)) => r matches Some((n, BufSplit(s2, e2))) && n == next && s2 == s
                && e2 == e,
            None => r is None,
        },
{
    if buf.len() <= pos {
        return None;
    }
    let rest = slice_subrange(buf, pos, buf.len());
    proof {
        search::lemma_first_index_of(rest@, 13u8);
    }
    match memchr_first(13u8, rest) {
        Some(end) => {
            if end + 1 < buf.len() {
                Some((pos + end + 2, BufSplit(pos, pos + end)))
            } else {
                None
            }
        },
        None => None,
    }
}

/// A line read by `spec_word` starts at `pos`, ends before the buffer's
/// end, and is followed by the two bytes of its terminator.
pub proof fn lemma_word_bounds(buf: Seq<u8>, pos: int)
    requires
        0 <= pos,
    ensures
        spec_word(buf, pos) matches Some((n, s, e)) ==> s == pos && pos <= e < buf.len() && n == e
            + 2,
{
    if pos < buf.len() {
        search::lemma_first_index_of(buf.subrange(pos, buf.len() as int), 13u8);
    }
}

/// The text of a line holds no `\r`.
pub proof fn lemma_word_text_no_cr(buf: Seq<u8>, pos: int)
    requires
        0 <= pos,
    ensures
        spec_word(buf, pos) matches Some((_, s, e)) ==> forall|j: int| s <= j < e ==> buf[j] != 13u8,
{
    if pos < buf.len() {
        let sub = buf.subrange(pos, buf.len() as int);
        search::lemma_first_index_of(sub, 13u8);
        if let Some((_, s, e)) = spec_word(buf, pos) {
            assert forall|j: int| s <= j < e implies buf[j] != 13u8 by {
                assert(buf[j] == sub[j - pos]);
            }
        }
    }
}

/// A line from `q` whose `\r` is at `e`, followed by one more byte.
pub proof fn lemma_word_at(b: Seq<u8>, q: int, e: int)
    requires
        0 <= q <= e,
        e + 1 < b.len(),
        b[e] == 13u8,
        forall|j: int| q <= j < e ==> b[j] != 13u8,
    ensures
        spec_word(b, q) == Some((e + 2, q, e)),
{
    let sub = b.subrange(q, b.len() as int);
    search::lemma_first_index_of(sub, 13u8);
    assert(sub[e - q] == 13u8);
    match search::first_index_of(sub, 13u8) {
        Some(i) => {
            if i < e - q {
                assert(sub[i] == b[q + i]);
            }
        },
        None => {},
    }
}

proof fn lemma_lines_abort_persists(buf: Seq<u8>, pos: int, i: nat, n: nat)
    requires
        i <= n,
        spec_lines(buf, pos, i) is None,
    ensures
        spec_lines(buf, pos, n) is None,
    decreases n,
{
    if n > i {
        lemma_lines_abort_persists(buf, pos, i, (n - 1) as nat);
    }
}

proof fn lemma_lines_bounds(buf: Seq<u8>, pos: int, n: nat)
    requires
        0 <= pos,
    ensures
        spec_lines(buf, pos, n) matches Some((p, spans)) ==> spans.len() == n && pos <= p && (n > 0
            ==> p <= buf.len() + 1)
            && forall|k: int| 0 <= k < n ==> 0 <= #[trigger] spans[k].0 <= spans[k].1 <= buf.len(),
    decreases n,
{
    if n > 0 {
        lemma_lines_bounds(buf, pos, (n - 1) as nat);
        if let Some((p, spans)) = spec_lines(buf, pos, (n - 1) as nat) {
            lemma_word_bounds(buf, p);
        }
    }
}

/// Reads an array whose count line starts at `pos`; see `spec_array`.
pub fn array(buf: &[u8], pos: usize) -> (r: Result<RedisResult, Abort>)
    requires
        buf@.len() <= isize::MAX,
    ensures
        array_result(r, spec_array(buf@, pos as int)),
{
    let size_string = match word(buf, pos) {
        Some(w) => w,
        None => return Err(Abort),
    };
    proof {
        lemma_word_bounds(buf@, pos as int);
    }
    let count_text = slice_subrange(buf, size_string.1.0, size_string.1.1);
    let array_size = match parse_unsigned_bytes(count_text, 255) {
        Some(n) => n,
        None => return Err(Abort),
    };
    if array_size > 127 {
        return Err(Abort);
    }
    let start = pos + size_string.0;
    let mut p = start;
    let total = array_size * 2;
    let mut results: Vec<String> = Vec::new();
    let mut i: u64 = 0;
    let ghost mut spans: Seq<(int, int)> = Seq::empty();
    assert(spec_word(buf@, pos as int) == Some(
        (size_string.0 as int, size_string.1.0 as int, size_string.1.1 as int),
    ));
    while i < total
        invariant
            buf@.len() <= isize::MAX,
            spec_lines(buf@, start as int, total as nat) is None ==> spec_array(buf@, pos as int) is Abort,
            spec_lines(buf@, start as int, total as nat) matches Some((_, sp)) ==> spec_array(buf@, pos as int)
                == (if array_size == 0 {
                ArrayShape::Empty
            } else {
                ArrayShape::Items(odd_items(buf@, sp))
            }),
            total == array_size * 2,
            i <= total,
            spec_lines(buf@, start as int, i as nat) == Some((p as int, spans)),
            spans.len() == i,
            forall|k: int| 0 <= k < i ==> 0 <= #[trigger] spans[k].0 <= spans[k].1 <= buf@.len(),
            results@.len() == i / 2,
            forall|k: int|
                0 <= k < i / 2 ==> text_read_from(
                    #[trigger] results@[k]@,
                    buf@.subrange(spans[2 * k + 1].0, spans[2 * k + 1].1),
                ),
        decreases total - i,
    {
        let item = match word(buf, p) {
            Some(w) => w,
            None => {
                proof {
                    assert(spec_lines(buf@, start as int, (i + 1) as nat) is None);
                    lemma_lines_abort_persists(buf@, start as int, (i + 1) as nat, total as nat);
                }
                return Err(Abort);
            },
        };
        proof {
            lemma_word_bounds(buf@, p as int);
            spans = spans.push((item.1.0 as int, item.1.1 as int));
        }
        if i % 2 != 0 {
            let text = slice_subrange(buf, item.1.0, item.1.1);
            results.push(string_from_utf8_lossy(text));
        }
        p = item.0;
        i = i + 1;
        proof {
            assert forall|k: int| 0 <= k < i / 2 implies text_read_from(
                #[trigger] results@[k]@,
                buf@.subrange(spans[2 * k + 1].0, spans[2 * k + 1].1),
            ) by {
                if k < (i - 1) / 2 {
                    assert(spans[2 * k + 1] == spans.drop_last()[2 * k + 1]);
                }
            }
        }
    }
    if results.len() > 0 {
        proof {
            let items = odd_items(buf@, spans);
            assert(strings_of(results@, items));
        }
        return Ok(Ok(Some((results.len(), RESPTypes::Array(results)))));
    }
    Ok(Err(RESPError::IntParseFailure))
}

} // verus!
