//! Small verified string and identifier-list helpers shared by the core.

use vstd::prelude::*;
use vstd::string::StrSliceExecFns;

verus! {

/// Executable equality test on string slices, decided character by character.
pub fn str_eq(a: &str, b: &str) -> (r: bool)
    ensures
        r == (a@ == b@),
{
    let alen = a.unicode_len();
    let blen = b.unicode_len();
    if alen != blen {
        return false;
    }
    let mut i: usize = 0;
    while i < alen
        invariant
            i <= alen,
            alen == a@.len(),
            blen == b@.len(),
            alen == blen,
            forall|j: int| 0 <= j < i ==> a@[j] == b@[j],
        decreases alen - i,
    {
        let ca = a.get_char(i);
        let cb = b.get_char(i);
        if ca != cb {
            return false;
        }
        i = i + 1;
    }
    proof {
        assert(a@ =~= b@);
    }
    true
}

/// Relies on `String::push`: appends the given character to the end of the
/// string.
#[verifier::external_body]
pub fn push_char(s: &mut String, c: char)
    ensures
        final(s)@ == old(s)@.push(c),
{
    s.push(c);
}

/// The input sequence with every repeated element dropped, keeping the first
/// occurrence of each value in order.
pub open spec fn dedup(s: Seq<u128>) -> Seq<u128>
    decreases s.len(),
{
    if s.len() == 0 {
        Seq::<u128>::empty()
    } else {
        let r = dedup(s.drop_last());
        if r.contains(s.last()) {
            r
        } else {
            r.push(s.last())
        }
    }
}

/// Deduplication yields pairwise distinct elements, keeps exactly the members
/// of the input, and never grows the sequence.
pub proof fn lemma_dedup_properties(s: Seq<u128>)
    ensures
        forall|p: int, q: int|
            0 <= p < q < dedup(s).len() ==> #[trigger] dedup(s)[p] != #[trigger] dedup(s)[q],
        forall|x: u128| dedup(s).contains(x) <==> s.contains(x),
        dedup(s).len() <= s.len(),
    decreases s.len(),
{
    if s.len() > 0 {
        lemma_dedup_properties(s.drop_last());
        let r = dedup(s.drop_last());
        assert(forall|x: u128| s.drop_last().contains(x) ==> s.contains(x)) by {
            assert forall|x: u128| s.drop_last().contains(x) implies s.contains(x) by {
                let i = choose|i: int| 0 <= i < s.drop_last().len() && s.drop_last()[i] == x;
                assert(s[i] == x);
            }
        }
        assert(s.contains(s.last())) by {
            assert(s[s.len() - 1] == s.last());
        }
        assert forall|x: u128| s.contains(x) implies dedup(s).contains(x) by {
            let i = choose|i: int| 0 <= i < s.len() && s[i] == x;
            if i < s.len() - 1 {
                assert(s.drop_last()[i] == x);
                assert(s.drop_last().contains(x));
                assert(r.contains(x));
                if !r.contains(s.last()) {
                    let j = choose|j: int| 0 <= j < r.len() && r[j] == x;
                    assert(dedup(s)[j] == x);
                }
            } else {
                assert(x == s.last());
                if r.contains(x) {
                } else {
                    assert(dedup(s)[r.len() as int] == x);
                }
            }
        }
        if !r.contains(s.last()) {
            assert forall|p: int, q: int|
                0 <= p < q < dedup(s).len() implies #[trigger] dedup(s)[p]
                != #[trigger] dedup(s)[q] by {
                if q < r.len() {
                } else {
                    assert(dedup(s)[q] == s.last());
                    assert(dedup(s)[p] == r[p]);
                    assert(!r.contains(s.last()));
                }
            }
        }
    }
}

/// Whether a vector of identifiers holds the given identifier.
pub fn contains_id(v: &Vec<u128>, x: u128) -> (r: bool)
    ensures
        r == v@.contains(x),
{
    let mut i: usize = 0;
    while i < v.len()
        invariant
            i <= v@.len(),
            forall|j: int| 0 <= j < i ==> v@[j] != x,
        decreases v@.len() - i,
    {
        if v[i] == x {
            return true;
        }
        i = i + 1;
    }
    false
}

/// Drops repeated identifiers from `v`, keeping the first occurrence of each
/// in order.
pub fn dedup_ids(v: &Vec<u128>) -> (r: Vec<u128>)
    ensures
        r@ == dedup(v@),
{
    let mut r: Vec<u128> = Vec::new();
    let mut i: usize = 0;
    while i < v.len()
        invariant
            i <= v@.len(),
            r@ == dedup(v@.take(i as int)),
        decreases v@.len() - i,
    {
        proof {
            assert(v@.take(i + 1).drop_last() =~= v@.take(i as int));
            assert(v@.take(i + 1).last() == v@[i as int]);
        }
        if !contains_id(&r, v[i]) {
            r.push(v[i]);
        }
        i = i + 1;
    }
    proof {
        assert(v@.take(v@.len() as int) =~= v@);
    }
    r
}


/// The character with an ASCII uppercase letter folded to its lowercase form;
/// every other character is left alone.
pub open spec fn ascii_lower_char(c: char) -> char {
    if 'A' <= c && c <= 'Z' {
        (((c as u32) + 32) as u8) as char
    } else {
        c
    }
}

/// The string with every ASCII uppercase letter folded to lowercase.
pub open spec fn ascii_lower(s: Seq<char>) -> Seq<char> {
    Seq::new(s.len(), |i: int| ascii_lower_char(s[i]))
}

/// Executable ASCII case folding of one character.
pub fn lower_char(c: char) -> (r: char)
    ensures
        r == ascii_lower_char(c),
{
    if 'A' <= c && c <= 'Z' {
        (((c as u32) + 32) as u8) as char
    } else {
        c
    }
}

/// Executable equality of two string slices up to ASCII case.
pub fn eq_ignore_ascii_case(a: &str, b: &str) -> (r: bool)
    ensures
        r == (ascii_lower(a@) == ascii_lower(b@)),
{
    let alen = a.unicode_len();
    let blen = b.unicode_len();
    if alen != blen {
        proof {
            assert(ascii_lower(a@).len() != ascii_lower(b@).len());
        }
        return false;
    }
    let mut i: usize = 0;
    while i < alen
        invariant
            i <= alen,
            alen == a@.len(),
            blen == b@.len(),
            alen == blen,
            forall|j: int| 0 <= j < i ==> ascii_lower(a@)[j] == ascii_lower(b@)[j],
        decreases alen - i,
    {
        let ca = lower_char(a.get_char(i));
        let cb = lower_char(b.get_char(i));
        if ca != cb {
            proof {
                assert(ascii_lower(a@)[i as int] != ascii_lower(b@)[i as int]);
            }
            return false;
        }
        proof {
            assert(ascii_lower(a@)[i as int] == ascii_lower(b@)[i as int]);
        }
        i = i + 1;
    }
    proof {
        assert(ascii_lower(a@) =~= ascii_lower(b@));
    }
    true
}


} // verus!
