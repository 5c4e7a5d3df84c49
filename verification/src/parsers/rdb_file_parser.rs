//! Loading an RDB snapshot: the database section after the first `0xfe`
//! byte is read entry by entry into the store.

use crate::store::{map_insert, Store, StoreModel};
use crate::search;
use crate::trusted::{push_char, string_from_utf8};
use crate::types::{Abort, Value, ValueView};
use vstd::bytes::{u32_from_le_bytes, u64_from_le_bytes};
use vstd::prelude::*;
use vstd::slice::{slice_subrange, slice_to_vec};
use vstd::utf8::*;

verus! {

/// The byte at `i`, or `0` past the end.
pub open spec fn ele(b: Seq<u8>, i: int) -> u8 {
    if 0 <= i < b.len() {
        b[i]
    } else {
        0
    }
}

/// The text of some bytes: their UTF-8 decoding, or `<Invalid UTF-8>`.
pub open spec fn text_of(bytes: Seq<u8>) -> Seq<char> {
    if valid_utf8(bytes) {
        decode_utf8(bytes)
    } else {
        "<Invalid UTF-8>"@
    }
}

/// The entry whose flag byte is at `idx`: the position after it, its key
/// and its value. The flag byte is skipped; the key and the value are each
/// a size byte `n` followed by `n` bytes of text. `None` when either runs
/// past the end.
pub open spec fn spec_kv(b: Seq<u8>, idx: int) -> Option<(int, Seq<char>, Seq<char>)> {
    let key_at = idx + 1;
    let key_end = key_at + 1 + ele(b, key_at);
    if key_end > b.len() {
        None
    } else {
        let value_end = key_end + 1 + ele(b, key_end);
        if value_end > b.len() {
            None
        } else {
            Some(
                (
                    value_end,
                    text_of(b.subrange(key_at + 1, key_end)),
                    text_of(b.subrange(key_end + 1, value_end)),
                ),
            )
        }
    }
}

/// The entry whose flag byte is at `at`, stored with the given expiry.
pub open spec fn spec_entry_at(b: Seq<u8>, at: int, expiry: bool, expires_at: u64) -> Option<
    (int, Option<(Seq<char>, ValueView)>),
> {
    match spec_kv(b, at) {
        None => None,
        Some((end, k, v)) => Some(
            (end, Some((k, ValueView { value: v, expiry: expiry, expires_at: expires_at }))),
        ),
    }
}

/// One step of reading the entries from `i`: the position after it, and
/// the entry read, if any. Past the end nothing is read. A `0xfc` byte is
/// followed by an expiry time in milliseconds (eight bytes, little-endian)
/// and then the entry; a `0xfd` byte by an expiry time in seconds (four
/// bytes, little-endian), kept in milliseconds; any other byte is the flag
/// byte of an entry without expiry.
pub open spec fn spec_step(b: Seq<u8>, i: int) -> Option<(int, Option<(Seq<char>, ValueView)>)> {
    if i >= b.len() {
        Some((i, None))
    } else if b[i] == 0xfcu8 {
        if i + 9 > b.len() {
            None
        } else {
            spec_entry_at(b, i + 9, true, vstd::bytes::spec_u64_from_le_bytes(b.subrange(i + 1, i + 9)))
        }
    } else if b[i] == 0xfdu8 {
        if i + 5 > b.len() {
            None
        } else {
            spec_entry_at(
                b,
                i + 5,
                true,
                (vstd::bytes::spec_u32_from_le_bytes(b.subrange(i + 1, i + 5)) * 1000) as u64,
            )
        }
    } else {
        spec_entry_at(b, i, false, 0)
    }
}

/// `k` steps of reading from `start`: the position reached and the entries
/// read, or `None` when a step stops.
pub open spec fn spec_entries(b: Seq<u8>, start: int, k: nat) -> Option<
    (int, Seq<(Seq<char>, ValueView)>),
>
    decreases k,
{
    if k == 0 {
        Some((start, Seq::empty()))
    } else {
        match spec_entries(b, start, (k - 1) as nat) {
            None => None,
            Some((i, es)) => match spec_step(b, i) {
                None => None,
                Some((i2, e)) => Some(
                    (
                        i2,
                        match e {
                            Some(x) => es.push(x),
                            None => es,
                        },
                    ),
                ),
            },
        }
    }
}

/// Reading never moves backwards.
pub proof fn lemma_entries_forward(b: Seq<u8>, start: int, k: nat)
    ensures
        spec_entries(b, start, k) matches Some((i, _)) ==> start <= i,
    decreases k,
{
    if k > 0 {
        lemma_entries_forward(b, start, (k - 1) as nat);
    }
}

/// Whether the byte at `i` is the database marker `0xfe`.
pub open spec fn is_db_marker(b: Seq<u8>, i: int) -> bool {
    0 <= i < b.len() && b[i] == 0xfeu8
}

/// The entries of the database section starting at `idx`: a database
/// number (read and skipped with the byte after it), the count of
/// entries, the count of expiring entries, then the entries; another
/// section follows when the next byte is `0xfe`.
pub open spec fn spec_section(b: Seq<u8>, idx: int) -> Option<Seq<(Seq<char>, ValueView)>>
    decreases b.len() - idx,
{
    if idx >= b.len() {
        Some(Seq::empty())
    } else {
        match spec_entries(b, idx + 4, ele(b, idx + 2) as nat) {
            None => None,
            Some((j, es)) => if is_db_marker(b, j) {
                proof {
                    lemma_entries_forward(b, idx + 4, ele(b, idx + 2) as nat);
                }
                match spec_section(b, j + 1) {
                    None => None,
                    Some(rest) => Some(es + rest),
                }
            } else {
                Some(es)
            },
        }
    }
}

/// The entries of a whole snapshot: the sections after its first `0xfe`
/// byte, or none when there is no such byte.
pub open spec fn spec_rdb(b: Seq<u8>) -> Option<Seq<(Seq<char>, ValueView)>> {
    match search::first_index_of(b, 0xfeu8) {
        None => Some(Seq::empty()),
        Some(i) => spec_section(b, i + 1),
    }
}

/// The store after setting each entry in turn.
pub open spec fn apply_entries(s: StoreModel, es: Seq<(Seq<char>, ValueView)>) -> StoreModel
    decreases es.len(),
{
    if es.len() == 0 {
        s
    } else {
        apply_entries(s, es.drop_last()).insert(es.last().0, es.last().1)
    }
}

/// The views of read entries.
pub open spec fn entry_views(v: Seq<(String, Value)>) -> Seq<(Seq<char>, ValueView)> {
    v.map_values(|e: (String, Value)| (e.0@, e.1@))
}

/// The lower-case hexadecimal digit for a value below sixteen.
pub open spec fn hex_digit(d: u8) -> char {
    if d < 10 {
        (48 + d) as char
    } else {
        (87 + d) as char
    }
}

/// Two lower-case hexadecimal digits of a byte, as `format!("{:02x}")`
/// writes them.
pub open spec fn hex2(b: u8) -> Seq<char> {
    seq![hex_digit(b / 16), hex_digit(b % 16)]
}

/// The hexadecimal digit for a value below sixteen.
fn hex_char(d: u8) -> (c: char)
    requires
        d < 16,
    ensures
        c == hex_digit(d),
{
    if d < 10 {
        (48u8 + d) as char
    } else {
        (87u8 + d) as char
    }
}

/// The two hexadecimal digits of a byte; see `hex2`.
fn hex_text(b: u8) -> (s: String)
    ensures
        s@ == hex2(b),
{
    let mut s = String::new();
    push_char(&mut s, hex_char(b / 16));
    push_char(&mut s, hex_char(b % 16));
    assert(s@ =~= hex2(b));
    s
}

/// The byte at `idx` in hexadecimal, or the empty string past the end.
pub fn get_ele(idx: usize, bytes_vec: &Vec<u8>) -> (r: String)
    ensures
        r@ == (if idx < bytes_vec@.len() {
            hex2(bytes_vec@[idx as int])
        } else {
            Seq::<char>::empty()
        }),
{
    if idx < bytes_vec.len() {
        hex_text(bytes_vec[idx])
    } else {
        String::new()
    }
}

/// The byte at `idx`, or `0` past the end.
pub fn get_ele_normal(idx: usize, bytes_vec: &Vec<u8>) -> (r: u8)
    ensures
        r == ele(bytes_vec@, idx as int),
{
    if idx < bytes_vec.len() {
        bytes_vec[idx]
    } else {
        0
    }
}

/// Whether the byte at `idx` reads as `fe` in hexadecimal.
fn is_fe(idx: usize, bytes_vec: &Vec<u8>) -> (r: bool)
    ensures
        r == is_db_marker(bytes_vec@, idx as int),
{
    let hex = get_ele(idx, bytes_vec);
    let fe = "fe".to_owned();
    let r = hex == fe;
    proof {
        reveal_strlit("fe");
        if idx < bytes_vec@.len() {
            let b = bytes_vec@[idx as int];
            if r {
                assert(hex@[0] == 'f' && hex@[1] == 'e');
                assert(b / 16 == 15);
                assert(b % 16 == 14);
            } else {
                if b == 0xfeu8 {
                    assert(hex@ =~= fe@);
                }
            }
        }
    }
    r
}

/// The text of some bytes, as `text_of` describes it.
fn text_from_bytes(bytes: Vec<u8>) -> (r: String)
    ensures
        r@ == text_of(bytes@),
{
    let ghost b = bytes@;
    match string_from_utf8(bytes) {
        Some(s) => {
            proof {
                encode_utf8_decode_utf8(s@);
            }
            s
        },
        None => "<Invalid UTF-8>".to_owned(),
    }
}

/// Reads the key and value of the entry whose flag byte is at `idx`; see
/// `spec_kv`.
pub fn get_key_value_pair(idx: usize, bytes_vec: &Vec<u8>) -> (r: Option<(String, String)>)
    requires
        bytes_vec@.len() <= isize::MAX,
        idx <= bytes_vec@.len() + 16,
    ensures
        match spec_kv(bytes_vec@, idx as int) {
            Some((_, k, v)) => r matches Some((k2, v2)) && k2@ == k && v2@ == v,
            None => r is None,
        },
{
    let key_at = idx + 1;
    let key_size = get_ele_normal(key_at, bytes_vec);
    let key_end = key_at + 1 + key_size as usize;
    if key_end > bytes_vec.len() {
        return None;
    }
    let key = text_from_bytes(slice_to_vec(slice_subrange(bytes_vec.as_slice(), key_at + 1, key_end)));
    let value_size = get_ele_normal(key_end, bytes_vec);
    let value_end = key_end + 1 + value_size as usize;
    if value_end > bytes_vec.len() {
        return None;
    }
    let value = text_from_bytes(slice_to_vec(slice_subrange(bytes_vec.as_slice(), key_end + 1, value_end)));
    Some((key, value))
}

/// The position after the entry whose flag byte is at `idx`, when the entry
/// lies within the bytes; see `spec_kv`.
fn entry_end(idx: usize, bytes_vec: &Vec<u8>) -> (r: usize)
    requires
        bytes_vec@.len() <= isize::MAX,
        idx <= bytes_vec@.len() + 16,
        spec_kv(bytes_vec@, idx as int) is Some,
    ensures
        spec_kv(bytes_vec@, idx as int) matches Some((end, _, _)) && r == end,
{
    let key_end = idx + 2 + get_ele_normal(idx + 1, bytes_vec) as usize;
    key_end + 1 + get_ele_normal(key_end, bytes_vec) as usize
}

/// Reads the entry whose flag byte is at `at`, stored with the given expiry.
fn read_entry_at(at: usize, bytes_vec: &Vec<u8>, expiry: bool, expires_at: u64) -> (r: Option<
    (usize, Option<(String, Value)>),
>)
    requires
        bytes_vec@.len() <= isize::MAX,
        at <= bytes_vec@.len() + 16,
    ensures
        match spec_entry_at(bytes_vec@, at as int, expiry, expires_at) {
            None => r is None,
            Some((i2, e)) => r matches Some((j, x)) && j == i2 && match e {
                None => x is None,
                Some((k, v)) => x matches Some((k2, v2)) && k2@ == k && v2@ == v,
            },
        },
{
    match get_key_value_pair(at, bytes_vec) {
        Some((k, v)) => {
            let end = entry_end(at, bytes_vec);
            Some((end, Some((k, Value { value: v, expiry: expiry, expires_at: expires_at }))))
        },
        None => None,
    }
}

/// One reading step from `i`; see `spec_step`.
fn read_entry(i: usize, bytes_vec: &Vec<u8>) -> (r: Option<(usize, Option<(String, Value)>)>)
    requires
        bytes_vec@.len() <= isize::MAX,
        i <= bytes_vec@.len() + 8,
    ensures
        match spec_step(bytes_vec@, i as int) {
            None => r is None,
            Some((i2, e)) => r matches Some((j, x)) && j == i2 && match e {
                None => x is None,
                Some((k, v)) => x matches Some((k2, v2)) && k2@ == k && v2@ == v,
            },
        },
{
    if i >= bytes_vec.len() {
        return Some((i, None));
    }
    let b = bytes_vec[i];
    if b == 0xfcu8 {
        if i + 9 > bytes_vec.len() {
            return None;
        }
        let timestamp = u64_from_le_bytes(slice_subrange(bytes_vec.as_slice(), i + 1, i + 9));
        read_entry_at(i + 9, bytes_vec, true, timestamp)
    } else if b == 0xfdu8 {
        if i + 5 > bytes_vec.len() {
            return None;
        }
        let seconds = u32_from_le_bytes(slice_subrange(bytes_vec.as_slice(), i + 1, i + 5));
        read_entry_at(i + 5, bytes_vec, true, seconds as u64 * 1000)
    } else {
        read_entry_at(i, bytes_vec, false, 0)
    }
}

proof fn lemma_entries_abort_persists(b: Seq<u8>, start: int, i: nat, n: nat)
    requires
        i <= n,
        spec_entries(b, start, i) is None,
    ensures
        spec_entries(b, start, n) is None,
    decreases n,
{
    if n > i {
        lemma_entries_abort_persists(b, start, i, (n - 1) as nat);
    }
}

/// `p` followed by what `o` holds; `None` stays `None`.
pub open spec fn prepend<E>(p: Seq<E>, o: Option<Seq<E>>) -> Option<Seq<E>> {
    match o {
        Some(rest) => Some(p + rest),
        None => None,
    }
}

/// Reads the database sections starting at `idx`; see `spec_section`.
/// `None` where the reading stops.
pub fn parse_db_section(idx: usize, size: usize, bytes_vec: &Vec<u8>) -> (r: Option<Vec<(String, Value)>>)
    requires
        size == bytes_vec@.len(),
        bytes_vec@.len() <= isize::MAX,
    ensures
        match spec_section(bytes_vec@, idx as int) {
            Some(es) => r matches Some(v) && entry_views(v@) == es,
            None => r is None,
        },
{
    let ghost b = bytes_vec@;
    let ghost start = idx as int;
    let mut cur = idx;
    let mut out: Vec<(String, Value)> = Vec::new();
    assert(spec_section(b, start) == prepend(entry_views(out@), spec_section(b, cur as int))) by {
        assert(entry_views(out@) =~= Seq::empty());
        if let Some(es) = spec_section(b, start) {
            assert(entry_views(out@) + es =~= es);
        }
    }
    while cur < size
        invariant
            b == bytes_vec@,
            start == idx as int,
            size == b.len(),
            b.len() <= isize::MAX,
            spec_section(b, start) == prepend(entry_views(out@), spec_section(b, cur as int)),
        decreases size - cur,
    {
        let _db_idx = get_ele_normal(cur, bytes_vec);
        let hash_table_size = get_ele_normal(cur + 2, bytes_vec);
        let _expiry_count = get_ele_normal(cur + 3, bytes_vec);
        let ghost first = (cur + 4) as int;
        let mut i = cur + 4;
        let mut k: u8 = 0;
        let mut section: Vec<(String, Value)> = Vec::new();
        assert(entry_views(section@) =~= Seq::empty());
        while k < hash_table_size
            invariant
                b == bytes_vec@,
                start == idx as int,
                size == b.len(),
                b.len() <= isize::MAX,
                cur < size,
                first == cur + 4,
                k <= hash_table_size,
                hash_table_size == ele(b, cur + 2),
                spec_section(b, start) == prepend(entry_views(out@), spec_section(b, cur as int)),
                first <= i <= size + 4,
                spec_entries(b, first, k as nat) == Some((i as int, entry_views(section@))),
            decreases hash_table_size - k,
        {
            match read_entry(i, bytes_vec) {
                None => {
                    proof {
                        assert(spec_entries(b, first, (k + 1) as nat) is None);
                        lemma_entries_abort_persists(b, first, (k + 1) as nat, hash_table_size as nat);
                        assert(spec_section(b, cur as int) is None);
                        assert(spec_section(b, start) is None);
                    }
                    return None;
                },
                Some((j, e)) => {
                    let ghost old_section = section@;
                    match e {
                        Some(entry) => {
                            section.push(entry);
                            assert(entry_views(section@) =~= entry_views(old_section).push(
                                (section@.last().0@, section@.last().1@),
                            ));
                        },
                        None => {},
                    }
                    i = j;
                },
            }
            k = k + 1;
        }
        let ghost sec = entry_views(section@);
        let ghost before = entry_views(out@);
        out.append(&mut section);
        assert(entry_views(out@) =~= before + sec);
        if is_fe(i, bytes_vec) {
            proof {
                if let Some(rest) = spec_section(b, i + 1) {
                    assert(before + (sec + rest) =~= (before + sec) + rest);
                }
            }
            cur = i + 1;
        } else {
            assert(spec_section(b, cur as int) == Some(sec));
            assert(spec_section(b, start) == Some(entry_views(out@)));
            return Some(out);
        }
    }
    assert(entry_views(out@) + Seq::empty() =~= entry_views(out@));
    Some(out)
}

/// Reads the snapshot `bytes_vec` into the store: the entries of the
/// sections after its first `0xfe` byte are set in turn. Where the reading
/// stops, nothing is set and `Err(Abort)` comes back.
pub fn parse_rdb_file(store: &mut Store, bytes_vec: &Vec<u8>) -> (r: Result<(), Abort>)
    requires
        old(store).wf(),
        bytes_vec@.len() <= isize::MAX,
    ensures
        final(store).wf(),
        match spec_rdb(bytes_vec@) {
            Some(es) => r is Ok && final(store)@ == apply_entries(old(store)@, es),
            None => r is Err && final(store)@ == old(store)@,
        },
{
    let size = bytes_vec.len();
    let mut idx: usize = 0;
    let mut found = false;
    while !found && idx < size
        invariant
            size == bytes_vec@.len(),
            idx <= size,
            found ==> idx < size && bytes_vec@[idx as int] == 0xfeu8,
            forall|j: int| 0 <= j < idx ==> bytes_vec@[j] != 0xfeu8,
        decreases size - idx + (if found { 0int } else { 1int }),
    {
        if is_fe(idx, bytes_vec) {
            found = true;
        } else {
            idx = idx + 1;
        }
    }
    proof {
        search::lemma_first_index_of(bytes_vec@, 0xfeu8);
        if found {
            assert(search::first_index_of(bytes_vec@, 0xfeu8) == Some(idx as int));
        } else {
            assert(search::first_index_of(bytes_vec@, 0xfeu8) is None);
        }
    }
    let entries: Vec<(String, Value)> = if found {
        match parse_db_section(idx + 1, size, bytes_vec) {
            Some(v) => v,
            None => return Err(Abort),
        }
    } else {
        Vec::new()
    };
    let ghost es = entry_views(entries@);
    let ghost pre = store@;
    assert(es =~= es.skip(0));
    assert(es.take(0) =~= Seq::<(Seq<char>, ValueView)>::empty());
    let total = entries.len();
    let mut remaining = entries;
    let mut pos: usize = 0;
    while pos < total
        invariant
            total == remaining@.len() + pos,
            pos <= total,
            store.wf(),
            es.len() == total,
            entry_views(remaining@) == es.skip(pos as int),
            store@ == apply_entries(pre, es.take(pos as int)),
        decreases total - pos,
    {
        let ghost old_remaining = remaining@;
        let (k, v) = remaining.remove(0);
        let ghost kv = es[pos as int];
        assert(entry_views(old_remaining)[0] == es.skip(pos as int)[0]);
        assert(k@ == kv.0 && v@ == kv.1);
        assert(entry_views(remaining@) =~= es.skip(pos + 1)) by {
            assert(remaining@ =~= old_remaining.skip(1));
            assert forall|t: int| 0 <= t < remaining@.len() implies #[trigger] entry_views(remaining@)[t]
                == es.skip(pos + 1)[t] by {
                assert(entry_views(old_remaining)[t + 1] == es.skip(pos as int)[t + 1]);
            }
        }
        map_insert(store, k, v);
        assert(es.take(pos + 1).drop_last() =~= es.take(pos as int));
        pos = pos + 1;
    }
    assert(es.take(pos as int) =~= es);
    Ok(())
}

/// Whether `e` is the entry that one reading step at some position of `b`
/// gives, with an expiry exactly when that position holds `0xfc` or `0xfd`.
pub open spec fn read_at_some_position(b: Seq<u8>, e: (Seq<char>, ValueView)) -> bool {
    exists|p: int| 0 <= p < b.len() && #[trigger] step_gives(b, p, e)
}

/// Whether one reading step at `p` gives the entry `e`, with an expiry
/// exactly when `p` holds `0xfc` or `0xfd`.
pub open spec fn step_gives(b: Seq<u8>, p: int, e: (Seq<char>, ValueView)) -> bool {
    match spec_step(b, p) {
        Some((_, Some(x))) => x == e && (e.1.expiry <==> (b[p] == 0xfcu8 || b[p] == 0xfdu8)),
        _ => false,
    }
}

/// Every entry read is what one step reads from its own bytes: its expiry
/// comes from a `0xfc` or `0xfd` right before its flag byte and from
/// nothing else, so an entry with no such byte is stored without expiry
/// whatever entries come before it.
pub proof fn theorem_entries_read_on_their_own(b: Seq<u8>, start: int, k: nat)
    requires
        0 <= start,
    ensures
        spec_entries(b, start, k) matches Some((_, es)) ==> forall|j: int|
            0 <= j < es.len() ==> read_at_some_position(b, #[trigger] es[j]),
    decreases k,
{
    if k > 0 {
        theorem_entries_read_on_their_own(b, start, (k - 1) as nat);
        lemma_entries_forward(b, start, (k - 1) as nat);
        if let Some((i, es)) = spec_entries(b, start, (k - 1) as nat) {
            if let Some((i2, Some(x))) = spec_step(b, i) {
                assert(0 <= i < b.len());
                assert(step_gives(b, i, x));
                assert(read_at_some_position(b, x));
                let es2 = es.push(x);
                assert forall|j: int| 0 <= j < es2.len() implies read_at_some_position(b, #[trigger] es2[j]) by {
                    if j < es.len() {
                        assert(es2[j] == es[j]);
                    }
                }
            }
        }
    }
}

/// A section counting two entries, whose entries read on their own as `e1`
/// (from its first flag or expiry byte) and `e2` (from where `e1` ends),
/// loads `e1` and then `e2`, each as read on its own; when no further
/// section follows, these two are all it loads.
pub proof fn theorem_two_entries_load_in_order(
    b: Seq<u8>,
    idx: int,
    q: int,
    r: int,
    e1: (Seq<char>, ValueView),
    e2: (Seq<char>, ValueView),
)
    requires
        0 <= idx < b.len(),
        ele(b, idx + 2) == 2,
        spec_step(b, idx + 4) == Some((q, Some(e1))),
        spec_step(b, q) == Some((r, Some(e2))),
    ensures
        spec_section(b, idx) matches Some(es) ==> es.len() >= 2 && es[0] == e1 && es[1] == e2,
        !is_db_marker(b, r) ==> spec_section(b, idx) == Some(seq![e1, e2]),
{
    assert(spec_entries(b, idx + 4, 0) == Some((idx + 4, Seq::<(Seq<char>, ValueView)>::empty())));
    assert(spec_entries(b, idx + 4, 1) == Some((q, seq![e1])));
    assert(spec_entries(b, idx + 4, 2) == Some((r, seq![e1, e2])));
    let es = seq![e1, e2];
    assert(seq![e1].push(e2) =~= es);
    if is_db_marker(b, r) {
        lemma_entries_forward(b, idx + 4, 2);
        if let Some(rest) = spec_section(b, r + 1) {
            assert((es + rest)[0] == e1);
            assert((es + rest)[1] == e2);
        }
    }
}

} // verus!
