//! The filter itself: the lines of a text that pass the retention rule, in
//! the order of the text.

use vstd::prelude::*;
use vstd::string::*;
use vstd::utf8::*;
use crate::lines::{next_line, split_lines, LF};
use crate::matching::{is_retained, lemma_retains_same_members, retains};
use crate::options::{exclusion_list, inclusion_list, separate_options};
use crate::text::{encodings, lemma_encode_concat, lemma_encodings_injective, texts};

verus! {

/// The lines among `lines` that the two lists retain, in their order.
pub open spec fn retained_lines(
    lines: Seq<Seq<u8>>,
    includes: Seq<Seq<u8>>,
    excludes: Seq<Seq<u8>>,
) -> Seq<Seq<u8>>
    decreases lines.len(),
{
    if lines.len() == 0 {
        Seq::empty()
    } else {
        let earlier = retained_lines(lines.drop_last(), includes, excludes);
        if retains(lines.last(), includes, excludes) {
            earlier.push(lines.last())
        } else {
            earlier
        }
    }
}

/// `part` can be had from `whole` by striking out items: the items of
/// `part` occur in `whole` in the same order.
pub open spec fn is_subsequence(part: Seq<Seq<u8>>, whole: Seq<Seq<u8>>) -> bool
    decreases whole.len(),
{
    if part.len() == 0 {
        true
    } else if whole.len() == 0 {
        false
    } else {
        ||| (part.last() == whole.last() && is_subsequence(part.drop_last(), whole.drop_last()))
        ||| is_subsequence(part, whole.drop_last())
    }
}

/// The output of the filter for the text `input` and the two pattern lists.
pub open spec fn filtered(
    input: Seq<char>,
    includes: Seq<Seq<char>>,
    excludes: Seq<Seq<char>>,
) -> Seq<Seq<u8>> {
    retained_lines(split_lines(encode_utf8(input)), encodings(includes), encodings(excludes))
}

/// Splits `input` into lines and returns those that contain every one of
/// `includes` and none of `excludes`, unchanged and in input order, without
/// their terminators.
pub fn extract(input: &str, includes: &Vec<String>, excludes: &Vec<String>) -> (kept: Vec<String>)
    ensures
        encodings(texts(kept@)) == filtered(input@, texts(includes@), texts(excludes@)),
        is_subsequence(encodings(texts(kept@)), split_lines(encode_utf8(input@))),
{
    let ghost all = split_lines(encode_utf8(input@));
    let ghost mut done: Seq<Seq<u8>> = Seq::empty();
    let mut kept: Vec<String> = Vec::new();
    let mut rest: &str = input;
    loop
        invariant
            all == split_lines(encode_utf8(input@)),
            all == done + split_lines(encode_utf8(rest@)),
            encodings(texts(kept@)) == retained_lines(
                done,
                encodings(texts(includes@)),
                encodings(texts(excludes@)),
            ),
        decreases encode_utf8(rest@).len(),
    {
        match next_line(rest) {
            None => {
                proof {
                    lemma_retained_is_subsequence(
                        all,
                        encodings(texts(includes@)),
                        encodings(texts(excludes@)),
                    );
                }
                return kept;
            },
            Some((line, tail)) => {
                let ghost bytes = encode_utf8(line@);
                if is_retained(line, includes, excludes) {
                    kept.push(line.to_owned());
                }
                proof {
                    assert(done.push(bytes).drop_last() =~= done);
                    done = done.push(bytes);
                }
                rest = tail;
            },
        }
    }
}

/// The lines as they are written out: each followed by one line feed.
pub open spec fn terminated(lines: Seq<Seq<u8>>) -> Seq<u8>
    decreases lines.len(),
{
    if lines.len() == 0 {
        Seq::empty()
    } else {
        terminated(lines.drop_last()) + lines.last() + seq![LF]
    }
}

/// What the filter writes for the text `input` under the arguments `args`.
pub open spec fn output_of(input: Seq<char>, args: Seq<Seq<char>>) -> Seq<u8> {
    terminated(filtered(input, inclusion_list(args), exclusion_list(args)))
}

/// Joins `lines` into one text, a line feed after each.
pub fn render_lines(lines: &Vec<String>) -> (out: String)
    ensures
        encode_utf8(out@) == terminated(encodings(texts(lines@))),
{
    let ghost all = encodings(texts(lines@));
    let mut out = String::new();
    let mut i: usize = 0;
    while i < lines.len()
        invariant
            i <= lines@.len(),
            all == encodings(texts(lines@)),
            encode_utf8(out@) == terminated(all.take(i as int)),
        decreases lines@.len() - i,
    {
        let ghost before = out@;
        let ghost line = lines@[i as int]@;
        out.append(lines[i].as_str());
        out.append("\n");
        proof {
            reveal_strlit("\n");
            let feed = seq!['\n'];
            assert("\n"@ =~= feed);
            is_ascii_chars_encode_utf8(feed);
            lemma_encode_concat(before + line, feed);
            lemma_encode_concat(before, line);
            assert(all.take(i + 1).drop_last() =~= all.take(i as int));
        }
        i += 1;
    }
    assert(all.take(i as int) =~= all);
    out
}

/// The whole filter on values: sorts `args` into the two pattern lists,
/// cuts `input` into lines and returns the retained ones as one text, each
/// followed by a line feed.
pub fn filter_text(input: &str, args: Vec<String>) -> (out: String)
    ensures
        encode_utf8(out@) == output_of(input@, texts(args@)),
{
    let lists = separate_options(args);
    let kept = extract(input, &lists[0], &lists[1]);
    render_lines(&kept)
}

/// The output is a subsequence of the input lines: nothing is added,
/// changed or reordered.
pub proof fn lemma_retained_is_subsequence(
    lines: Seq<Seq<u8>>,
    includes: Seq<Seq<u8>>,
    excludes: Seq<Seq<u8>>,
)
    ensures
        is_subsequence(retained_lines(lines, includes, excludes), lines),
    decreases lines.len(),
{
    if lines.len() > 0 {
        let earlier = retained_lines(lines.drop_last(), includes, excludes);
        lemma_retained_is_subsequence(lines.drop_last(), includes, excludes);
        if retains(lines.last(), includes, excludes) {
            assert(earlier.push(lines.last()).drop_last() =~= earlier);
        }
    }
}

/// With no pattern at all, every line is retained.
pub proof fn lemma_no_patterns_retain_all(lines: Seq<Seq<u8>>)
    ensures
        retained_lines(lines, Seq::empty(), Seq::empty()) == lines,
    decreases lines.len(),
{
    if lines.len() > 0 {
        lemma_no_patterns_retain_all(lines.drop_last());
        assert(lines.drop_last().push(lines.last()) =~= lines);
    }
}

/// A subsequence has its items at rising positions of the whole: the
/// positions returned, one for each item of `part`, are strictly increasing
/// and each holds that item in `whole`.
pub proof fn lemma_subsequence_positions(part: Seq<Seq<u8>>, whole: Seq<Seq<u8>>) -> (at: Seq<int>)
    requires
        is_subsequence(part, whole),
    ensures
        at.len() == part.len(),
        forall|i: int| 0 <= i < at.len() ==> 0 <= #[trigger] at[i] < whole.len(),
        forall|i: int| 0 <= i < at.len() ==> whole[#[trigger] at[i]] == part[i],
        forall|i: int, j: int| 0 <= i < j < at.len() ==> at[i] < at[j],
    decreases whole.len(),
{
    if part.len() == 0 {
        Seq::empty()
    } else if part.last() == whole.last() && is_subsequence(part.drop_last(), whole.drop_last()) {
        let earlier = lemma_subsequence_positions(part.drop_last(), whole.drop_last());
        earlier.push(whole.len() - 1)
    } else {
        lemma_subsequence_positions(part, whole.drop_last())
    }
}

/// A line is in the output exactly when it is an input line that the two
/// lists retain.
pub proof fn lemma_retained_members(
    lines: Seq<Seq<u8>>,
    includes: Seq<Seq<u8>>,
    excludes: Seq<Seq<u8>>,
    line: Seq<u8>,
)
    ensures
        retained_lines(lines, includes, excludes).contains(line) <==> (lines.contains(line)
            && retains(line, includes, excludes)),
    decreases lines.len(),
{
    if lines.len() > 0 {
        let out = retained_lines(lines, includes, excludes);
        let shorter = lines.drop_last();
        let earlier = retained_lines(shorter, includes, excludes);
        lemma_retained_members(shorter, includes, excludes, line);
        if earlier.contains(line) {
            let i = choose|i: int| 0 <= i < earlier.len() && earlier[i] == line;
            assert(out[i] == line);
        }
        if shorter.contains(line) {
            let j = choose|j: int| 0 <= j < shorter.len() && shorter[j] == line;
            assert(lines[j] == line);
        }
        if lines.last() == line {
            assert(lines[lines.len() - 1] == line);
            if retains(line, includes, excludes) {
                assert(out[out.len() - 1] == line);
            }
        }
        if out.contains(line) && !earlier.contains(line) {
            let i = choose|i: int| 0 <= i < out.len() && out[i] == line;
            assert(i < earlier.len() ==> earlier[i] == line);
        }
        if lines.contains(line) && !shorter.contains(line) {
            let j = choose|j: int| 0 <= j < lines.len() && lines[j] == line;
            assert(j < shorter.len() ==> shorter[j] == line);
        }
    }
}

/// Lists with the same members retain the same lines of any input.
pub proof fn lemma_retained_same_members(
    lines: Seq<Seq<u8>>,
    includes: Seq<Seq<u8>>,
    excludes: Seq<Seq<u8>>,
    includes_other: Seq<Seq<u8>>,
    excludes_other: Seq<Seq<u8>>,
)
    requires
        forall|p: Seq<u8>| includes.contains(p) <==> includes_other.contains(p),
        forall|q: Seq<u8>| excludes.contains(q) <==> excludes_other.contains(q),
    ensures
        retained_lines(lines, includes, excludes) == retained_lines(
            lines,
            includes_other,
            excludes_other,
        ),
    decreases lines.len(),
{
    if lines.len() > 0 {
        lemma_retained_same_members(
            lines.drop_last(),
            includes,
            excludes,
            includes_other,
            excludes_other,
        );
        lemma_retains_same_members(lines.last(), includes, excludes, includes_other, excludes_other);
    }
}

/// The encodings of two lists of texts that are permutations of each other
/// have the same members.
proof fn lemma_permuted_encodings(list: Seq<Seq<char>>, permuted: Seq<Seq<char>>)
    requires
        list.to_multiset() == permuted.to_multiset(),
    ensures
        forall|p: Seq<u8>| encodings(list).contains(p) ==> encodings(permuted).contains(p),
{
    list.to_multiset_ensures();
    permuted.to_multiset_ensures();
    assert forall|p: Seq<u8>| encodings(list).contains(p) implies encodings(permuted).contains(
        p,
    ) by {
        let i = choose|i: int| 0 <= i < encodings(list).len() && encodings(list)[i] == p;
        assert(list.to_multiset().count(list[i]) > 0);
        let j = choose|j: int| 0 <= j < permuted.len() && permuted[j] == list[i];
        assert(encodings(permuted)[j] == p);
    }
}

/// Permuting the inclusion list, the exclusion list or both changes nothing
/// in the output.
pub proof fn lemma_filtered_permuted(
    input: Seq<char>,
    includes: Seq<Seq<char>>,
    excludes: Seq<Seq<char>>,
    includes_permuted: Seq<Seq<char>>,
    excludes_permuted: Seq<Seq<char>>,
)
    requires
        includes.to_multiset() == includes_permuted.to_multiset(),
        excludes.to_multiset() == excludes_permuted.to_multiset(),
    ensures
        filtered(input, includes, excludes) == filtered(input, includes_permuted, excludes_permuted),
{
    lemma_permuted_encodings(includes, includes_permuted);
    lemma_permuted_encodings(includes_permuted, includes);
    lemma_permuted_encodings(excludes, excludes_permuted);
    lemma_permuted_encodings(excludes_permuted, excludes);
    lemma_retained_same_members(
        split_lines(encode_utf8(input)),
        encodings(includes),
        encodings(excludes),
        encodings(includes_permuted),
        encodings(excludes_permuted),
    );
}

/// The output is a function of the input text and the patterns: two runs
/// that are given equal text and equal lists return equal lines, character
/// for character.
pub proof fn lemma_extract_repeatable(
    input: Seq<char>,
    includes: Seq<Seq<char>>,
    excludes: Seq<Seq<char>>,
    first: Seq<Seq<char>>,
    second: Seq<Seq<char>>,
)
    requires
        encodings(first) == filtered(input, includes, excludes),
        encodings(second) == filtered(input, includes, excludes),
    ensures
        first == second,
{
    lemma_encodings_injective(first, second);
}

/// Two runs on the same text and the same arguments write the same bytes,
/// and so the same text.
pub proof fn lemma_output_repeatable(
    input: Seq<char>,
    args: Seq<Seq<char>>,
    first: Seq<char>,
    second: Seq<char>,
)
    requires
        encode_utf8(first) == output_of(input, args),
        encode_utf8(second) == output_of(input, args),
    ensures
        first == second,
{
    encode_utf8_decode_utf8(first);
    encode_utf8_decode_utf8(second);
}

} // verus!
