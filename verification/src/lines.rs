//! Cutting a text into lines. A line ends at a line feed; a carriage return
//! directly before that line feed belongs to the terminator. The last line
//! needs no terminator.

use vstd::prelude::*;
use vstd::utf8::*;

verus! {

/// The line feed byte.
pub const LF: u8 = 0x0a;

/// The carriage return byte.
pub const CR: u8 = 0x0d;

/// The offset of the first line feed in `text`, or the length of `text`
/// where it holds none.
pub open spec fn first_break(text: Seq<u8>) -> int
    decreases text.len(),
{
    if text.len() == 0 || text[0] == LF {
        0
    } else {
        1 + first_break(text.drop_first())
    }
}

/// `line` without one trailing carriage return.
pub open spec fn without_cr(line: Seq<u8>) -> Seq<u8> {
    if line.len() > 0 && line.last() == CR {
        line.drop_last()
    } else {
        line
    }
}

/// The first line of a non-empty `text`, without its terminator. Text that
/// ends without a line feed is a line as it stands, a trailing carriage
/// return included.
pub open spec fn first_line(text: Seq<u8>) -> Seq<u8> {
    let n = first_break(text);
    if 0 <= n < text.len() {
        without_cr(text.subrange(0, n))
    } else {
        text
    }
}

/// What follows the first line of `text` and its terminator.
pub open spec fn after_first_line(text: Seq<u8>) -> Seq<u8> {
    let n = first_break(text);
    if 0 <= n < text.len() {
        text.subrange(n + 1, text.len() as int)
    } else {
        Seq::empty()
    }
}

/// The lines of `text`, in order, without their terminators. The empty text
/// has no line, and a final line feed opens no further line.
pub open spec fn split_lines(text: Seq<u8>) -> Seq<Seq<u8>>
    decreases text.len(),
{
    if text.len() == 0 {
        Seq::empty()
    } else {
        seq![first_line(text)] + split_lines(after_first_line(text))
    }
}

/// `first_break` is the one offset with no line feed before it that is the
/// end of the text or holds a line feed.
pub proof fn lemma_first_break_is(text: Seq<u8>, n: int)
    requires
        0 <= n <= text.len(),
        forall|k: int| 0 <= k < n ==> text[k] != LF,
        n == text.len() || text[n] == LF,
    ensures
        first_break(text) == n,
    decreases n,
{
    if n > 0 {
        lemma_first_break_is(text.drop_first(), n - 1);
    }
}

/// Finds the first line feed.
fn find_break(bytes: &[u8]) -> (n: usize)
    ensures
        n == first_break(bytes@),
        n <= bytes@.len(),
        n < bytes@.len() ==> bytes@[n as int] == LF,
{
    let mut n: usize = 0;
    while n < bytes.len() && bytes[n] != LF
        invariant
            n <= bytes@.len(),
            forall|k: int| 0 <= k < n ==> bytes@[k] != LF,
        decreases bytes@.len() - n,
    {
        n += 1;
    }
    proof {
        lemma_first_break_is(bytes@, n as int);
    }
    n
}

/// Takes the first line off `text`: the line without its terminator, and
/// the text after the terminator. `None` exactly when `text` is empty.
pub fn next_line<'a>(text: &'a str) -> (parts: Option<(&'a str, &'a str)>)
    ensures
        parts.is_none() <==> encode_utf8(text@).len() == 0,
        parts matches Some((line, tail)) ==> {
            &&& encode_utf8(line@) == first_line(encode_utf8(text@))
            &&& encode_utf8(tail@) == after_first_line(encode_utf8(text@))
        },
{
    broadcast use encode_utf8_valid_utf8;

    let bytes = text.as_bytes();
    let len: usize = bytes.len();
    if len == 0 {
        return None;
    }
    let n: usize = find_break(bytes);
    if n == len {
        proof {
            is_char_boundary_start_end_of_seq(bytes@);
        }
        let (line, tail) = text.split_at(n);
        return Some((line, tail));
    }
    proof {
        is_char_boundary_iff_not_is_continuation_byte(bytes@, n as int);
    }
    let (head, from_break) = text.split_at(n);
    proof {
        let fb = encode_utf8(from_break@);
        assert(is_char_boundary(pop_first_scalar(fb), 0));
    }
    let (_, tail) = from_break.split_at(1);
    let head_bytes = head.as_bytes();
    let head_len: usize = head_bytes.len();
    if head_len > 0 && head_bytes[head_len - 1] == CR {
        proof {
            is_char_boundary_iff_not_is_continuation_byte(head_bytes@, head_len - 1);
        }
        let (line, _) = head.split_at(head_len - 1);
        Some((line, tail))
    } else {
        Some((head, tail))
    }
}

} // verus!
