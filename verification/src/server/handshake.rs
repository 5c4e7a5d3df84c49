//! The commands a replica sends to its master during the handshake.

use crate::codec;
use crate::codec::encode_array;
use crate::digits;
use crate::store;
use vstd::utf8::*;
use vstd::prelude::*;

verus! {

/// `REPLCONF listening-port <port>` as a RESP array.
pub open spec fn replconf_port_request(port: Seq<char>) -> Seq<u8> {
    codec::array_bytes(seq!["REPLCONF"@, "listening-port"@, port])
}

/// `REPLCONF capa psync2` as a RESP array.
pub open spec fn replconf_capa_request() -> Seq<u8> {
    codec::array_bytes(seq!["REPLCONF"@, "capa"@, "psync2"@])
}

/// The second handshake step: tells the master the port this replica listens on.
pub fn handshake_2(port: String) -> (r: Vec<u8>)
    ensures
        r@ == replconf_port_request(port@),
{
    let mut args: Vec<String> = Vec::new();
    args.push("REPLCONF".to_owned());
    args.push("listening-port".to_owned());
    args.push(port);
    assert(store::string_views(args@) =~= seq!["REPLCONF"@, "listening-port"@, args@[2]@]);
    encode_array(args)
}

/// The third handshake step: tells the master the replica's capabilities.
pub fn handshake_3() -> (r: Vec<u8>)
    ensures
        r@ == replconf_capa_request(),
{
    let mut args: Vec<String> = Vec::new();
    args.push("REPLCONF".to_owned());
    args.push("capa".to_owned());
    args.push("psync2".to_owned());
    assert(store::string_views(args@) =~= seq!["REPLCONF"@, "capa"@, "psync2"@]);
    encode_array(args)
}

/// `REPLCONF capa psync2` is longer than five bytes and has `\r` as its
/// third byte.
pub proof fn lemma_capa_request_shape()
    ensures
        replconf_capa_request().len() > 5,
        replconf_capa_request()[2] == 13u8,
{
    let items = seq!["REPLCONF"@, "capa"@, "psync2"@];
    let r = replconf_capa_request();
    assert(digits::decimal(3) == seq![51u8]);
    let h = seq![42u8] + digits::decimal(3) + codec::crlf();
    assert(r == h + codec::bulk_items(items));
    assert(items.drop_last().drop_last().drop_last() =~= Seq::<Seq<char>>::empty());
    assert(codec::bulk_items(items).len() >= codec::bulk_string_bytes(encode_utf8(items.last())).len());
    assert(r[2] == h[2]);
}

/// The first bytes of an array of three bulk strings whose first item is
/// `REPLCONF`: the byte after the second item's `$` is the first digit of
/// that item's length.
proof fn lemma_second_length_digit(x: Seq<char>, y: Seq<char>)
    ensures
        ({
            let b = codec::array_bytes(seq!["REPLCONF"@, x, y]);
            let i: int = 4 + codec::bulk_string_bytes(encode_utf8("REPLCONF"@)).len() as int + 1;
            i < b.len() && b[i] == digits::decimal(encode_utf8(x).len())[0]
        }),
{
    let items = seq!["REPLCONF"@, x, y];
    let a = codec::bulk_string_bytes(encode_utf8("REPLCONF"@));
    let bx = codec::bulk_string_bytes(encode_utf8(x));
    let by = codec::bulk_string_bytes(encode_utf8(y));
    assert(items.drop_last() =~= seq!["REPLCONF"@, x]);
    assert(items.drop_last().drop_last() =~= seq!["REPLCONF"@]);
    assert(items.drop_last().drop_last().drop_last() =~= Seq::<Seq<char>>::empty());
    let i2 = seq!["REPLCONF"@, x];
    let i1 = seq!["REPLCONF"@];
    assert(i1.drop_last() =~= Seq::<Seq<char>>::empty());
    assert(i1.last() == "REPLCONF"@);
    assert(i2.drop_last() =~= i1);
    assert(i2.last() == x);
    assert(items.last() == y);
    assert(codec::bulk_items(Seq::<Seq<char>>::empty()) == Seq::<u8>::empty());
    assert(codec::bulk_items(i1) == codec::bulk_items(i1.drop_last()) + a);
    assert(codec::bulk_items(i1) =~= a);
    assert(codec::bulk_items(i2) =~= a + bx);
    assert(codec::bulk_items(items) =~= a + bx + by);
    assert(digits::decimal(3) == seq![51u8]);
    let h = seq![42u8] + digits::decimal(3) + codec::crlf();
    let b = codec::array_bytes(items);
    assert(b == h + (a + bx + by));
    digits::lemma_decimal_digits(encode_utf8(x).len());
    assert(bx[1] == digits::decimal(encode_utf8(x).len())[0]);
    let i: int = 4 + a.len() as int + 1;
    assert(b[i] == bx[1]);
}

/// The port announcement and the capabilities announcement differ.
pub proof fn lemma_port_request_is_not_capa_request(port: Seq<char>)
    ensures
        replconf_port_request(port) != replconf_capa_request(),
{
    reveal_strlit("listening-port");
    reveal_strlit("capa");
    assert(is_ascii_chars("listening-port"@));
    assert(is_ascii_chars("capa"@));
    is_ascii_chars_encode_utf8("listening-port"@);
    is_ascii_chars_encode_utf8("capa"@);
    lemma_second_length_digit("listening-port"@, port);
    lemma_second_length_digit("capa"@, "psync2"@);
    assert(digits::decimal(4) == seq![52u8]);
    assert(digits::decimal(1) == seq![49u8]);
    assert(digits::decimal(14) == digits::decimal(1).push(52u8));
    let i: int = 4 + codec::bulk_string_bytes(encode_utf8("REPLCONF"@)).len() as int + 1;
    assert(replconf_port_request(port)[i] != replconf_capa_request()[i]);
}

} // verus!
