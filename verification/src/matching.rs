//! Literal substring search over bytes.

use vstd::prelude::*;
use vstd::utf8::*;
use crate::text::{encodings, texts};

verus! {

/// `pat` stands in `text` at offset `at`.
pub open spec fn occurs_at(pat: Seq<u8>, text: Seq<u8>, at: int) -> bool {
    &&& 0 <= at
    &&& at + pat.len() <= text.len()
    &&& text.subrange(at, at + pat.len()) == pat
}

/// `pat` is a substring of `text`. The empty pattern is a substring of
/// every text.
pub open spec fn occurs_in(pat: Seq<u8>, text: Seq<u8>) -> bool {
    exists|at: int| occurs_at(pat, text, at)
}

/// Tells whether `pat` stands in `text` at offset `at`. An offset at which
/// `pat` does not fit is no match.
pub fn matches_at(text: &[u8], pat: &[u8], at: usize) -> (hit: bool)
    ensures
        hit == occurs_at(pat@, text@, at as int),
{
    let width: usize = pat.len();
    let total: usize = text.len();
    if at > total || width > total - at {
        return false;
    }
    let mut k: usize = 0;
    while k < width
        invariant
            k <= width == pat@.len(),
            total == text@.len(),
            at + width <= total,
            forall|j: int| 0 <= j < k ==> text@[at + j] == pat@[j],
        decreases width - k,
    {
        if text[at + k] != pat[k] {
            proof {
            }
            return false;
        }
        k += 1;
    }
    proof {
        assert(text@.subrange(at as int, at + width) =~= pat@);
    }
    true
}

/// Literal substring test: does `pat` occur anywhere in `text`?
pub fn contains_bytes(text: &[u8], pat: &[u8]) -> (found: bool)
    ensures
        found == occurs_in(pat@, text@),
{
    if pat.len() > text.len() {
        return false;
    }
    let last: usize = text.len() - pat.len();
    let mut at: usize = 0;
    loop
        invariant
            at <= last,
            last + pat@.len() == text@.len(),
            forall|j: int| 0 <= j < at ==> !occurs_at(pat@, text@, j),
        decreases last - at,
    {
        if matches_at(text, pat, at) {
            return true;
        }
        if at == last {
            return false;
        }
        at += 1;
    }
}

/// Every pattern of `patterns` is a substring of `line`.
pub open spec fn has_all(line: Seq<u8>, patterns: Seq<Seq<u8>>) -> bool {
    forall|i: int| 0 <= i < patterns.len() ==> occurs_in(#[trigger] patterns[i], line)
}

/// No pattern of `patterns` is a substring of `line`.
pub open spec fn has_none(line: Seq<u8>, patterns: Seq<Seq<u8>>) -> bool {
    forall|i: int| 0 <= i < patterns.len() ==> !occurs_in(#[trigger] patterns[i], line)
}

/// The retention rule: `line` holds every inclusion pattern and no exclusion
/// pattern.
pub open spec fn retains(line: Seq<u8>, includes: Seq<Seq<u8>>, excludes: Seq<Seq<u8>>) -> bool {
    has_all(line, includes) && has_none(line, excludes)
}

/// True when `input` contains every one of `targets`, compared byte by byte;
/// true for an empty list.
pub fn is_included(input: &str, targets: &Vec<String>) -> (ok: bool)
    ensures
        ok == has_all(encode_utf8(input@), encodings(texts(targets@))),
{
    let line = input.as_bytes();
    let ghost patterns = encodings(texts(targets@));
    let mut i: usize = 0;
    while i < targets.len()
        invariant
            i <= targets@.len(),
            line@ == encode_utf8(input@),
            patterns == encodings(texts(targets@)),
            forall|j: int| 0 <= j < i ==> occurs_in(#[trigger] patterns[j], line@),
        decreases targets@.len() - i,
    {
        if !contains_bytes(line, targets[i].as_str().as_bytes()) {
            assert(!occurs_in(patterns[i as int], line@));
            return false;
        }
        i += 1;
    }
    true
}

/// True when `input` contains not one of `targets`, compared byte by byte:
/// the line passes the exclusion list. True for an empty list.
pub fn is_excluded(input: &str, targets: &Vec<String>) -> (ok: bool)
    ensures
        ok == has_none(encode_utf8(input@), encodings(texts(targets@))),
{
    let line = input.as_bytes();
    let ghost patterns = encodings(texts(targets@));
    let mut i: usize = 0;
    while i < targets.len()
        invariant
            i <= targets@.len(),
            line@ == encode_utf8(input@),
            patterns == encodings(texts(targets@)),
            forall|j: int| 0 <= j < i ==> !occurs_in(#[trigger] patterns[j], line@),
        decreases targets@.len() - i,
    {
        if contains_bytes(line, targets[i].as_str().as_bytes()) {
            assert(occurs_in(patterns[i as int], line@));
            return false;
        }
        i += 1;
    }
    true
}

/// The decision for one line: kept exactly when it contains every inclusion
/// pattern and no exclusion pattern.
pub fn is_retained(line: &str, includes: &Vec<String>, excludes: &Vec<String>) -> (keep: bool)
    ensures
        keep == retains(
            encode_utf8(line@),
            encodings(texts(includes@)),
            encodings(texts(excludes@)),
        ),
{
    is_included(line, includes) && is_excluded(line, excludes)
}

/// With no inclusion pattern, a line is retained exactly when no exclusion
/// pattern occurs in it.
pub proof fn lemma_no_inclusions(line: Seq<u8>, excludes: Seq<Seq<u8>>)
    ensures
        retains(line, Seq::empty(), excludes) == has_none(line, excludes),
{
}

/// With no exclusion pattern, a line is retained exactly when every
/// inclusion pattern occurs in it.
pub proof fn lemma_no_exclusions(line: Seq<u8>, includes: Seq<Seq<u8>>)
    ensures
        retains(line, includes, Seq::empty()) == has_all(line, includes),
{
}

/// The retention rule over membership: a line is retained exactly when each
/// pattern on the inclusion list is a substring of it and each pattern on
/// the exclusion list is not. Positions and repetitions do not matter.
pub proof fn lemma_retains_by_membership(
    line: Seq<u8>,
    includes: Seq<Seq<u8>>,
    excludes: Seq<Seq<u8>>,
)
    ensures
        retains(line, includes, excludes) <==> ((forall|p: Seq<u8>|
            includes.contains(p) ==> occurs_in(p, line)) && (forall|q: Seq<u8>|
            excludes.contains(q) ==> !occurs_in(q, line))),
{
    if retains(line, includes, excludes) {
        assert forall|p: Seq<u8>| includes.contains(p) implies occurs_in(p, line) by {
            let i = choose|i: int| 0 <= i < includes.len() && includes[i] == p;
            assert(occurs_in(includes[i], line));
        }
        assert forall|q: Seq<u8>| excludes.contains(q) implies !occurs_in(q, line) by {
            let i = choose|i: int| 0 <= i < excludes.len() && excludes[i] == q;
            assert(!occurs_in(excludes[i], line));
        }
    } else if !has_all(line, includes) {
        let i = choose|i: int| 0 <= i < includes.len() && !occurs_in(includes[i], line);
        assert(includes.contains(includes[i]));
    } else {
        let i = choose|i: int| 0 <= i < excludes.len() && occurs_in(excludes[i], line);
        assert(excludes.contains(excludes[i]));
    }
}

/// Only the members of the two lists matter: lists with the same members,
/// in whatever order and however often repeated, retain the same lines.
pub proof fn lemma_retains_same_members(
    line: Seq<u8>,
    includes: Seq<Seq<u8>>,
    excludes: Seq<Seq<u8>>,
    includes_other: Seq<Seq<u8>>,
    excludes_other: Seq<Seq<u8>>,
)
    requires
        forall|p: Seq<u8>| includes.contains(p) <==> includes_other.contains(p),
        forall|q: Seq<u8>| excludes.contains(q) <==> excludes_other.contains(q),
    ensures
        retains(line, includes, excludes) == retains(line, includes_other, excludes_other),
{
    lemma_retains_by_membership(line, includes, excludes);
    lemma_retains_by_membership(line, includes_other, excludes_other);
}

} // verus!
