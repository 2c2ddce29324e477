//! Strings as the contracts see them: a string is its sequence of
//! characters, and matching is done on the UTF-8 bytes of that sequence.

use vstd::prelude::*;
use vstd::utf8::*;

verus! {

/// The character sequences of a list of strings, in the list's order.
pub open spec fn texts(list: Seq<String>) -> Seq<Seq<char>> {
    Seq::new(list.len(), |i: int| list[i]@)
}

/// The UTF-8 bytes of each text of a list, in the list's order.
pub open spec fn encodings(list: Seq<Seq<char>>) -> Seq<Seq<u8>> {
    Seq::new(list.len(), |i: int| encode_utf8(list[i]))
}

/// The encoding of two texts joined is the two encodings joined.
pub proof fn lemma_encode_concat(a: Seq<char>, b: Seq<char>)
    ensures
        encode_utf8(a + b) == encode_utf8(a) + encode_utf8(b),
    decreases a.len(),
{
    if a.len() > 0 {
        lemma_encode_concat(a.drop_first(), b);
        assert((a + b).drop_first() =~= a.drop_first() + b);
    }
}

/// Two lists of texts with the same encodings are the same list.
pub proof fn lemma_encodings_injective(first: Seq<Seq<char>>, second: Seq<Seq<char>>)
    requires
        encodings(first) == encodings(second),
    ensures
        first == second,
{
    assert(encodings(first).len() == first.len());
    assert(encodings(second).len() == second.len());
    assert forall|i: int| 0 <= i < first.len() implies first[i] == second[i] by {
        assert(encodings(first)[i] == encode_utf8(first[i]));
        assert(encodings(second)[i] == encode_utf8(second[i]));
        encode_utf8_decode_utf8(first[i]);
        encode_utf8_decode_utf8(second[i]);
    }
}

} // verus!
