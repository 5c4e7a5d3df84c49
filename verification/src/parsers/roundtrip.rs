//! Reading back what the encoder writes: an array of bulk strings made by
//! `encode_array` reads, with the array parser, as the bytes of its items.

use crate::codec;
use crate::digits;
use crate::parsers::wire;
use crate::parsers::wire::{lemma_word_at, odd_items, spec_array, spec_lines, ArrayShape};
use crate::store;
use crate::types::{Abort, RESPTypes, RedisResult};
use vstd::prelude::*;
use vstd::utf8::*;

verus! {

/// No byte of the UTF-8 encoding of a character other than `\r` is `\r`.
proof fn lemma_encode_scalar_no_cr(c: u32)
    requires
        c != 13,
    ensures
        forall|i: int| 0 <= i < encode_scalar(c).len() ==> #[trigger] encode_scalar(c)[i] != 13u8,
{
    if has_width_1_encoding(c) {
        assert((c & 0x7F) as u8 != 13u8) by (bit_vector)
            requires
                c != 13,
                c <= 0x7F,
        ;
    } else {
        assert(0xC0u8 | ((c >> 6) & 0x1F) as u8 != 13u8) by (bit_vector);
        assert(0xE0u8 | ((c >> 12) & 0x0F) as u8 != 13u8) by (bit_vector);
        assert(0xF0u8 | ((c >> 18) & 0x7) as u8 != 13u8) by (bit_vector);
        assert(0x80u8 | (c & 0x3F) as u8 != 13u8) by (bit_vector);
        assert(0x80u8 | ((c >> 6) & 0x3F) as u8 != 13u8) by (bit_vector);
        assert(0x80u8 | ((c >> 12) & 0x3F) as u8 != 13u8) by (bit_vector);
    }
}

/// The UTF-8 bytes of a text without `\r` hold no `\r` byte.
pub proof fn lemma_encode_utf8_no_cr(s: Seq<char>)
    requires
        !s.contains('\r'),
    ensures
        forall|i: int| 0 <= i < encode_utf8(s).len() ==> #[trigger] encode_utf8(s)[i] != 13u8,
    decreases s.len(),
{
    if s.len() > 0 {
        let c = s[0];
        assert(c != '\r') by {
            if c == '\r' {
                assert(s.contains('\r'));
            }
        }
        assert((c as u32) != 13) by {
            char_u32_cast(c, c as u32);
            char_u32_cast('\r', '\r' as u32);
        }
        lemma_encode_scalar_no_cr(c as u32);
        assert(!s.drop_first().contains('\r')) by {
            if s.drop_first().contains('\r') {
                let i = choose|i: int| 0 <= i < s.drop_first().len() && s.drop_first()[i] == '\r';
                assert(s[i + 1] == '\r');
            }
        }
        lemma_encode_utf8_no_cr(s.drop_first());
        let a = encode_scalar(c as u32);
        let r = encode_utf8(s.drop_first());
        assert(encode_utf8(s) == a + r);
        assert forall|i: int| 0 <= i < encode_utf8(s).len() implies #[trigger] encode_utf8(s)[i] != 13u8 by {
            if i < a.len() {
                assert(encode_utf8(s)[i] == a[i]);
            } else {
                assert(encode_utf8(s)[i] == r[i - a.len()]);
            }
        }
    }
}

/// The bulk string of a text.
pub open spec fn bulk_of(t: Seq<char>) -> Seq<u8> {
    codec::bulk_string_bytes(encode_utf8(t))
}

/// The length of the array header `*<count>\r\n`.
pub open spec fn head_len(items: Seq<Seq<char>>) -> int {
    3 + digits::decimal(items.len()).len() as int
}

/// Where the bulk string of item `j` starts in the encoded array.
pub open spec fn offset(items: Seq<Seq<char>>, j: int) -> int {
    head_len(items) + codec::bulk_items(items.take(j)).len() as int
}

/// The length of the decimal length line of a text's bulk string.
pub open spec fn dec_len(t: Seq<char>) -> int {
    digits::decimal(encode_utf8(t).len()).len() as int
}

/// The bounds of item `j`'s bytes in the encoded array.
pub open spec fn item_span(items: Seq<Seq<char>>, j: int) -> (int, int) {
    let o = offset(items, j);
    let dl = dec_len(items[j]);
    (o + 3 + dl, o + 3 + dl + encode_utf8(items[j]).len())
}

/// The layout of one bulk string: `$`, the digits of the length, `\r\n`,
/// the bytes, `\r\n`.
proof fn lemma_bulk_layout(t: Seq<char>)
    ensures
        ({
            let b = bulk_of(t);
            let dl = dec_len(t);
            let e = encode_utf8(t);
            &&& b.len() == 5 + dl + e.len()
            &&& b[0] == 36u8
            &&& forall|i: int| 1 <= i < 1 + dl ==> #[trigger] b[i] != 13u8
            &&& b[1 + dl] == 13u8
            &&& b[2 + dl] == 10u8
            &&& forall|i: int| 0 <= i < e.len() ==> #[trigger] b[3 + dl + i] == e[i]
            &&& b[3 + dl + e.len()] == 13u8
            &&& b[4 + dl + e.len()] == 10u8
        }),
{
    let e = encode_utf8(t);
    let d = digits::decimal(e.len());
    digits::lemma_decimal_digits(e.len());
    let b = bulk_of(t);
    assert(b == seq![36u8] + d + codec::crlf() + e + codec::crlf());
    assert forall|i: int| 1 <= i < 1 + d.len() implies #[trigger] b[i] != 13u8 by {
        assert(b[i] == d[i - 1]);
        assert(digits::is_digit(d[i - 1]));
    }
    assert forall|i: int| 0 <= i < e.len() implies #[trigger] b[3 + d.len() + i] == e[i] by {
    }
}

proof fn lemma_take_step(items: Seq<Seq<char>>, j: int)
    requires
        0 <= j < items.len(),
    ensures
        codec::bulk_items(items.take(j + 1)) == codec::bulk_items(items.take(j)) + bulk_of(items[j]),
{
    assert(items.take(j + 1).drop_last() =~= items.take(j));
    assert(items.take(j + 1).last() == items[j]);
}

proof fn lemma_prefix(items: Seq<Seq<char>>, j: int, k: int)
    requires
        0 <= j <= k <= items.len(),
    ensures
        codec::bulk_items(items.take(j)).len() <= codec::bulk_items(items.take(k)).len(),
        forall|t: int|
            0 <= t < codec::bulk_items(items.take(j)).len() ==> #[trigger] codec::bulk_items(items.take(k))[t]
                == codec::bulk_items(items.take(j))[t],
    decreases k - j,
{
    if j < k {
        lemma_prefix(items, j, k - 1);
        lemma_take_step(items, k - 1);
    }
}

/// Where each bulk string lies in the encoded array.
proof fn lemma_bulk_at(items: Seq<Seq<char>>, j: int)
    requires
        0 <= j < items.len(),
    ensures
        offset(items, j + 1) == offset(items, j) + bulk_of(items[j]).len(),
        offset(items, j + 1) <= codec::array_bytes(items).len(),
        forall|t: int|
            0 <= t < bulk_of(items[j]).len() ==> #[trigger] codec::array_bytes(items)[offset(items, j) + t]
                == bulk_of(items[j])[t],
{
    let n = items.len() as int;
    let b = codec::array_bytes(items);
    let all = codec::bulk_items(items);
    assert(items.take(n) =~= items);
    lemma_take_step(items, j);
    lemma_prefix(items, j + 1, n);
    let h = seq![42u8] + digits::decimal(items.len()) + codec::crlf();
    assert(b == h + all);
    assert(h.len() == head_len(items));
    assert forall|t: int|
        0 <= t < bulk_of(items[j]).len() implies #[trigger] b[offset(items, j) + t] == bulk_of(items[j])[t] by {
        let pre = codec::bulk_items(items.take(j));
        let x = pre.len() + t;
        assert(b[h.len() + x] == all[x]);
        assert(all[x] == codec::bulk_items(items.take(j + 1))[x]);
    }
}

/// The encoded array is exactly its header and its bulk strings.
proof fn lemma_array_len(items: Seq<Seq<char>>)
    ensures
        offset(items, items.len() as int) == codec::array_bytes(items).len(),
{
    assert(items.take(items.len() as int) =~= items);
}

/// No item holds a `\r`.
pub open spec fn items_without_cr(items: Seq<Seq<char>>) -> bool {
    forall|i: int| 0 <= i < items.len() ==> !#[trigger] items[i].contains('\r')
}

/// Reading `2 * j` lines after the header of an encoded array ends at the
/// bulk string of item `j`, and every second line is an item's bytes.
proof fn lemma_lines(items: Seq<Seq<char>>, j: int)
    requires
        items_without_cr(items),
        0 <= j <= items.len(),
    ensures
        ({
            let b = codec::array_bytes(items);
            let start = head_len(items) + 1;
            spec_lines(b, start, (2 * j) as nat) matches Some((p, sp)) && p == (if j == 0 {
                start
            } else {
                offset(items, j)
            }) && sp.len() == 2 * j && forall|t: int|
                0 <= t < j ==> #[trigger] sp[2 * t + 1] == item_span(items, t)
        }),
    decreases j,
{
    if j > 0 {
        let b = codec::array_bytes(items);
        let start = head_len(items) + 1;
        lemma_lines(items, j - 1);
        let (p, sp) = spec_lines(b, start, (2 * (j - 1)) as nat).unwrap();
        let t = items[j - 1];
        let o = offset(items, j - 1);
        let dl = dec_len(t);
        let e = encode_utf8(t);
        let el = e.len() as int;
        lemma_bulk_at(items, j - 1);
        lemma_bulk_layout(t);
        lemma_encode_utf8_no_cr(t);
        assert(items.take(0) =~= Seq::<Seq<char>>::empty());
        assert(o <= p <= o + 1);
        assert forall|q: int| p <= q < o + 1 + dl implies b[q] != 13u8 by {
            assert(b[o + (q - o)] == bulk_of(t)[q - o]);
        }
        assert(b[o + (1 + dl)] == bulk_of(t)[1 + dl]);
        lemma_word_at(b, p, o + 1 + dl);
        let sp1 = sp.push((p, o + 1 + dl));
        assert(spec_lines(b, start, (2 * j - 1) as nat) == Some((o + 3 + dl, sp1)));
        assert forall|q: int| o + 3 + dl <= q < o + 3 + dl + el implies b[q] != 13u8 by {
            assert(b[o + (q - o)] == bulk_of(t)[q - o]);
            assert(bulk_of(t)[3 + dl + (q - o - 3 - dl)] == e[q - o - 3 - dl]);
        }
        assert(b[o + (3 + dl + el)] == bulk_of(t)[3 + dl + el]);
        lemma_word_at(b, o + 3 + dl, o + 3 + dl + el);
        let sp2 = sp1.push(item_span(items, j - 1));
        assert(spec_lines(b, start, (2 * j) as nat) == Some((o + 5 + dl + el, sp2)));
        assert forall|u: int| 0 <= u < j implies #[trigger] sp2[2 * u + 1] == item_span(items, u) by {
            if u < j - 1 {
                assert(sp2[2 * u + 1] == sp[2 * u + 1]);
            }
        }
    }
}

/// An array of one to 127 items, none holding `\r`, encoded by
/// `encode_array` reads back with the array parser as the UTF-8 bytes of
/// its items.
pub proof fn theorem_array_reads_back(items: Seq<Seq<char>>)
    requires
        1 <= items.len() <= 127,
        items_without_cr(items),
    ensures
        spec_array(codec::array_bytes(items), 1) == ArrayShape::Items(codec::utf8_pieces(items)),
{
    let n = items.len();
    let b = codec::array_bytes(items);
    let d = digits::decimal(n);
    digits::lemma_decimal_digits(n);
    let h = seq![42u8] + d + codec::crlf();
    assert(b == h + codec::bulk_items(items));
    lemma_bulk_at(items, 0);
    lemma_bulk_layout(items[0]);
    assert(items.take(0) =~= Seq::<Seq<char>>::empty());
    assert forall|q: int| 1 <= q < 1 + d.len() implies b[q] != 13u8 by {
        assert(b[q] == d[q - 1]);
        assert(digits::is_digit(d[q - 1]));
    }
    assert(b[1 + d.len() as int] == 13u8);
    lemma_word_at(b, 1, 1 + d.len() as int);
    assert(b.subrange(1, 1 + d.len() as int) =~= d);
    digits::theorem_decimal_reads_back(n, 255);
    lemma_lines(items, n as int);
    let (p, sp) = spec_lines(b, head_len(items) + 1, 2 * n).unwrap();
    assert forall|k: int| 0 <= k < n implies #[trigger] odd_items(b, sp)[k] == codec::utf8_pieces(items)[k] by {
        let t = items[k];
        lemma_bulk_at(items, k);
        lemma_bulk_layout(t);
        let o = offset(items, k);
        let dl = dec_len(t);
        let e = encode_utf8(t);
        assert(sp[2 * k + 1] == item_span(items, k));
        assert forall|i: int| 0 <= i < e.len() implies b.subrange(o + 3 + dl, o + 3 + dl + e.len())[i] == e[i] by {
            assert(b[o + (3 + dl + i)] == bulk_of(t)[3 + dl + i]);
        }
        assert(b.subrange(o + 3 + dl, o + 3 + dl + e.len()) =~= e);
    }
    assert(odd_items(b, sp) =~= codec::utf8_pieces(items));
}

/// An array of one to 127 strings, none holding `\r`, encoded by
/// `encode_array` starts with `*`, and whatever the array parser returns
/// for it under its contract (directly, or through `parse_redis_protocol`
/// from position 0) is those strings, in order.
pub proof fn theorem_strings_read_back(items: Seq<Seq<char>>, r: Result<RedisResult, Abort>)
    requires
        1 <= items.len() <= 127,
        items_without_cr(items),
        wire::array_result(r, spec_array(codec::array_bytes(items), 1)),
    ensures
        codec::array_bytes(items)[0] == 42u8,
        r matches Ok(Ok(Some((n, RESPTypes::Array(v))))) && n == items.len() && store::string_views(v@)
            == items,
{
    theorem_array_reads_back(items);
    let pieces = codec::utf8_pieces(items);
    if let Ok(Ok(Some((n, RESPTypes::Array(v))))) = r {
        assert forall|k: int| 0 <= k < items.len() implies #[trigger] store::string_views(v@)[k]
            == items[k] by {
            assert(pieces[k] == encode_utf8(items[k]));
            encode_utf8_valid_utf8(items[k]);
            assert(wire::text_read_from(v@[k]@, pieces[k]));
            encode_utf8_decode_utf8(v@[k]@);
            encode_utf8_decode_utf8(items[k]);
        }
        assert(store::string_views(v@) =~= items);
    }
}

} // verus!
