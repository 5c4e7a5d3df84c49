//! Finding an item in a sequence and comparing texts.

use vstd::prelude::*;

verus! {

/// The first position of `needle` in `s`, if it occurs.
pub open spec fn first_index_of<T>(s: Seq<T>, needle: T) -> Option<int>
    decreases s.len(),
{
    if s.len() == 0 {
        None
    } else if s[0] == needle {
        Some(0)
    } else {
        match first_index_of(s.drop_first(), needle) {
            Some(i) => Some(i + 1),
            None => None,
        }
    }
}

/// `first_index_of` is the least index holding the byte, and `None` exactly
/// when the byte is absent.
pub proof fn lemma_first_index_of<T>(s: Seq<T>, needle: T)
    ensures
        match first_index_of(s, needle) {
            Some(i) => 0 <= i < s.len() && s[i] == needle && forall|j: int|
                0 <= j < i ==> s[j] != needle,
            None => forall|j: int| 0 <= j < s.len() ==> s[j] != needle,
        },
    decreases s.len(),
{
    if s.len() > 0 && s[0] != needle {
        lemma_first_index_of(s.drop_first(), needle);
        match first_index_of(s.drop_first(), needle) {
            Some(i) => {
                assert forall|j: int| 0 <= j < i + 1 implies s[j] != needle by {
                    if j > 0 {
                        assert(s[j] == s.drop_first()[j - 1]);
                    }
                }
            },
            None => {
                assert forall|j: int| 0 <= j < s.len() implies s[j] != needle by {
                    if j > 0 {
                        assert(s[j] == s.drop_first()[j - 1]);
                    }
                }
            },
        }
    }
}

/// Whether the two byte strings are equal.
pub fn bytes_equal(a: &[u8], b: &[u8]) -> (r: bool)
    ensures
        r == (a@ == b@),
{
    if a.len() != b.len() {
        return false;
    }
    let mut i: usize = 0;
    while i < a.len()
        invariant
            a@.len() == b@.len(),
            i <= a@.len(),
            a@.take(i as int) == b@.take(i as int),
        decreases a@.len() - i,
    {
        if a[i] != b[i] {
            assert(a@[i as int] != b@[i as int]);
            return false;
        }
        assert(a@.take(i + 1) =~= a@.take(i as int).push(a@[i as int]));
        assert(b@.take(i + 1) =~= b@.take(i as int).push(b@[i as int]));
        i = i + 1;
    }
    assert(a@.take(i as int) =~= a@);
    assert(b@.take(i as int) =~= b@);
    true
}

/// Whether `s` holds exactly the text `lit`.
pub fn text_is(s: &String, lit: &str) -> (r: bool)
    ensures
        r == (s@ == lit@),
{
    let t = lit.to_owned();
    *s == t
}

} // verus!
