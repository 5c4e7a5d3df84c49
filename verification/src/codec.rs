//! RESP encoding of replies: arrays of bulk strings and single bulk strings.

use crate::digits;
use crate::digits::decimal_bytes;
use crate::store;
use vstd::prelude::*;
use vstd::utf8::*;

verus! {

/// The line terminator `\r\n`.
pub open spec fn crlf() -> Seq<u8> {
    seq![13u8, 10u8]
}

/// A RESP bulk string holding `b`: `$<len>\r\n<b>\r\n`.
pub open spec fn bulk_string_bytes(b: Seq<u8>) -> Seq<u8> {
    seq![36u8] + digits::decimal(b.len()) + crlf() + b + crlf()
}

/// The bulk strings of `items`, one after another.
pub open spec fn bulk_items(items: Seq<Seq<char>>) -> Seq<u8>
    decreases items.len(),
{
    if items.len() == 0 {
        Seq::empty()
    } else {
        bulk_items(items.drop_last()) + bulk_string_bytes(encode_utf8(items.last()))
    }
}

/// A RESP array of bulk strings: `*<count>\r\n` and then each item.
pub open spec fn array_bytes(items: Seq<Seq<char>>) -> Seq<u8> {
    seq![42u8] + digits::decimal(items.len()) + crlf() + bulk_items(items)
}

/// The pieces joined with `\r\n` between them.
pub open spec fn join_crlf(pieces: Seq<Seq<u8>>) -> Seq<u8>
    decreases pieces.len(),
{
    if pieces.len() == 0 {
        Seq::empty()
    } else if pieces.len() == 1 {
        pieces[0]
    } else {
        join_crlf(pieces.drop_last()) + crlf() + pieces.last()
    }
}

/// The UTF-8 bytes of each text.
pub open spec fn utf8_pieces(items: Seq<Seq<char>>) -> Seq<Seq<u8>> {
    items.map_values(|s: Seq<char>| encode_utf8(s))
}

/// Appends the bytes of `b` to `out`.
pub fn append_bytes(out: &mut Vec<u8>, b: &[u8])
    ensures
        final(out)@ == old(out)@ + b@,
{
    let mut i: usize = 0;
    while i < b.len()
        invariant
            i <= b@.len(),
            out@ == old(out)@ + b@.take(i as int),
        decreases b@.len() - i,
    {
        out.push(b[i]);
        assert(b@.take(i + 1) =~= b@.take(i as int).push(b@[i as int]));
        i = i + 1;
    }
    assert(b@.take(i as int) =~= b@);
}

/// Appends `\r\n` to `out`.
pub fn push_crlf(out: &mut Vec<u8>)
    ensures
        final(out)@ == old(out)@ + crlf(),
{
    out.push(13u8);
    out.push(10u8);
    assert(out@ =~= old(out)@ + crlf());
}

/// Appends the bulk string holding `b` to `out`.
pub fn push_bulk_string(out: &mut Vec<u8>, b: &[u8])
    ensures
        final(out)@ == old(out)@ + bulk_string_bytes(b@),
{
    out.push(36u8);
    let len = decimal_bytes(b.len());
    append_bytes(out, len.as_slice());
    push_crlf(out);
    append_bytes(out, b);
    push_crlf(out);
    assert(out@ =~= old(out)@ + bulk_string_bytes(b@));
}

/// Encodes `array` as a RESP array of bulk strings.
pub fn encode_array(array: Vec<String>) -> (r: Vec<u8>)
    ensures
        r@ == array_bytes(store::string_views(array@)),
{
    let ghost items = store::string_views(array@);
    let mut ans: Vec<u8> = Vec::new();
    ans.push(42u8);
    let count = decimal_bytes(array.len());
    append_bytes(&mut ans, count.as_slice());
    push_crlf(&mut ans);
    let ghost head = ans@;
    let mut i: usize = 0;
    while i < array.len()
        invariant
            i <= array@.len(),
            items == store::string_views(array@),
            head == seq![42u8] + digits::decimal(items.len()) + crlf(),
            ans@ == head + bulk_items(items.take(i as int)),
        decreases array@.len() - i,
    {
        let bytes = array[i].as_str().as_bytes();
        let ghost before = ans@;
        push_bulk_string(&mut ans, bytes);
        proof {
            assert(items.take(i + 1).drop_last() =~= items.take(i as int));
            assert(items.take(i + 1).last() == array@[i as int]@);
            assert(ans@ =~= head + bulk_items(items.take(i + 1)));
        }
        i = i + 1;
    }
    assert(items.take(i as int) =~= items);
    ans
}

/// Encodes the lines of `array`, joined with `\r\n`, as one RESP bulk string.
pub fn encode_bulk_string(array: Vec<String>) -> (r: Vec<u8>)
    ensures
        r@ == bulk_string_bytes(join_crlf(utf8_pieces(store::string_views(array@)))),
{
    let ghost pieces = utf8_pieces(store::string_views(array@));
    let mut text: Vec<u8> = Vec::new();
    let mut i: usize = 0;
    while i < array.len()
        invariant
            i <= array@.len(),
            pieces == utf8_pieces(store::string_views(array@)),
            text@ == join_crlf(pieces.take(i as int)),
        decreases array@.len() - i,
    {
        if i > 0 {
            push_crlf(&mut text);
        }
        append_bytes(&mut text, array[i].as_str().as_bytes());
        proof {
            assert(pieces.take(i + 1).drop_last() =~= pieces.take(i as int));
            assert(pieces.take(i + 1).last() == encode_utf8(array@[i as int]@));
            assert(text@ =~= join_crlf(pieces.take(i + 1)));
        }
        i = i + 1;
    }
    assert(pieces.take(i as int) =~= pieces);
    let mut ans: Vec<u8> = Vec::new();
    push_bulk_string(&mut ans, text.as_slice());
    assert(ans@ =~= bulk_string_bytes(join_crlf(pieces)));
    ans
}

} // verus!
