//! Byte offsets into UTF-8 text: character boundaries, line breaks, and the standard
//! library's in-place string edits.
use crate::xml_iterator::lemma_boundary_after_ascii;
use vstd::prelude::*;
use vstd::string::*;
use vstd::utf8::*;

verus! {

broadcast use vstd::string::group_string_axioms;

/// The UTF-8 bytes of a text.
pub open spec fn utf8(s: Seq<char>) -> Seq<u8> {
    encode_utf8(s)
}

/// `i` is a character boundary of `bytes`: the end, or a byte that does not continue a
/// character.
pub open spec fn on_boundary(bytes: Seq<u8>, i: int) -> bool {
    0 <= i <= bytes.len() && (i == bytes.len() || !is_continuation_byte(bytes[i]))
}

/// The byte of a line break.
pub open spec fn newline() -> u8 {
    0x0a
}

/// On valid UTF-8, [`on_boundary`] is the standard library's notion of a character boundary.
pub proof fn lemma_on_boundary(bytes: Seq<u8>, i: int)
    requires
        valid_utf8(bytes),
    ensures
        on_boundary(bytes, i) == is_char_boundary(bytes, i),
{
    if 0 <= i < bytes.len() {
        is_char_boundary_iff_not_is_continuation_byte(bytes, i);
    } else if i == bytes.len() {
        is_char_boundary_start_end_of_seq(bytes);
    }
}

/// The bytes of a text are valid UTF-8, and their boundaries are the standard library's.
pub proof fn lemma_text_bytes(s: Seq<char>)
    ensures
        valid_utf8(utf8(s)),
        forall|i: int| on_boundary(utf8(s), i) == #[trigger] is_char_boundary(utf8(s), i),
        on_boundary(utf8(s), 0),
{
    encode_utf8_valid_utf8(s);
    assert forall|i: int| on_boundary(utf8(s), i) == #[trigger] is_char_boundary(utf8(s), i) by {
        lemma_on_boundary(utf8(s), i);
    }
    is_char_boundary_start_end_of_seq(utf8(s));
}

/// The byte after a line break starts a character.
pub proof fn lemma_after_newline(bytes: Seq<u8>, i: int)
    requires
        valid_utf8(bytes),
        0 <= i < bytes.len(),
        bytes[i] == newline(),
    ensures
        on_boundary(bytes, i),
        on_boundary(bytes, i + 1),
{
    lemma_on_boundary(bytes, i);
    lemma_on_boundary(bytes, i + 1);
    lemma_boundary_after_ascii(bytes, i);
}

/// `r` is the character boundary right before `end` (or `0` at the start).
pub open spec fn is_prev_boundary(bytes: Seq<u8>, end: int, r: int) -> bool {
    if end == 0 {
        r == 0
    } else {
        &&& 0 <= r < end
        &&& on_boundary(bytes, r)
        &&& forall|j: int| r < j < end ==> !#[trigger] on_boundary(bytes, j)
    }
}

/// `r` is the character boundary right after `start` (or the end of the text at its end).
pub open spec fn is_next_boundary(bytes: Seq<u8>, start: int, r: int) -> bool {
    if start == bytes.len() {
        r == start
    } else {
        &&& start < r <= bytes.len()
        &&& on_boundary(bytes, r)
        &&& forall|j: int| start < j < r ==> !#[trigger] on_boundary(bytes, j)
    }
}

/// `r` is the start of the line that holds position `end`: just after the last line break
/// before `end`, or `0`.
pub open spec fn is_line_start(bytes: Seq<u8>, end: int, r: int) -> bool {
    &&& 0 <= r <= end
    &&& (r == 0 || bytes[r - 1] == newline())
    &&& forall|j: int| r <= j < end ==> #[trigger] bytes[j] != newline()
}

/// `r` is the end of the line that holds position `start`: the first line break at or after
/// `start`, or the end of the text.
pub open spec fn is_line_end(bytes: Seq<u8>, start: int, r: int) -> bool {
    &&& start <= r <= bytes.len()
    &&& (r == bytes.len() || bytes[r] == newline())
    &&& forall|j: int| start <= j < r ==> #[trigger] bytes[j] != newline()
}

fn is_continuation(b: u8) -> (r: bool)
    ensures
        r == is_continuation_byte(b),
{
    0x80 <= b && b <= 0xbf
}

/// The character boundary right before `end`.
pub fn prev_boundary(bytes: &[u8], end: usize) -> (r: usize)
    requires
        valid_utf8(bytes@),
        on_boundary(bytes@, end as int),
    ensures
        is_prev_boundary(bytes@, end as int, r as int),
{
    if end == 0 {
        return 0;
    }
    let mut i: usize = end - 1;
    while i > 0 && is_continuation(bytes[i])
        invariant
            0 <= i < end <= bytes@.len(),
            forall|j: int| i < j < end ==> !#[trigger] on_boundary(bytes@, j),
        decreases i,
    {
        i = i - 1;
    }
    proof {
        if i == 0 {
            lemma_on_boundary(bytes@, 0);
        }
    }
    i
}

/// The character boundary right after `start`.
pub fn next_boundary(bytes: &[u8], start: usize) -> (r: usize)
    requires
        on_boundary(bytes@, start as int),
    ensures
        is_next_boundary(bytes@, start as int, r as int),
{
    let len = bytes.len();
    if start == len {
        return start;
    }
    let mut i: usize = start + 1;
    while i < len && is_continuation(bytes[i])
        invariant
            start < i <= len == bytes@.len(),
            forall|j: int| start < j < i ==> !#[trigger] on_boundary(bytes@, j),
        decreases len - i,
    {
        i = i + 1;
    }
    i
}

/// The start of the line holding position `end`.
pub fn line_start(bytes: &[u8], end: usize) -> (r: usize)
    requires
        end <= bytes@.len(),
    ensures
        is_line_start(bytes@, end as int, r as int),
{
    let mut i: usize = end;
    while i > 0 && bytes[i - 1] != 0x0a
        invariant
            0 <= i <= end <= bytes@.len(),
            forall|j: int| i <= j < end ==> #[trigger] bytes@[j] != newline(),
        decreases i,
    {
        i = i - 1;
    }
    i
}

/// The end of the line holding position `start`.
pub fn line_end(bytes: &[u8], start: usize) -> (r: usize)
    requires
        start <= bytes@.len(),
    ensures
        is_line_end(bytes@, start as int, r as int),
{
    let len = bytes.len();
    let mut i: usize = start;
    while i < len && bytes[i] != 0x0a
        invariant
            start <= i <= len == bytes@.len(),
            forall|j: int| start <= j < i ==> #[trigger] bytes@[j] != newline(),
        decreases len - i,
    {
        i = i + 1;
    }
    i
}

/// The number of bytes that encode `c` in UTF-8.
pub fn char_len_utf8(c: char) -> (r: usize)
    ensures
        r == encode_scalar(c as u32).len(),
        1 <= r <= 4,
{
    proof {
        char_is_scalar(c);
    }
    let v = c as u32;
    if v <= 0x7f {
        1
    } else if v <= 0x7ff {
        2
    } else if v <= 0xffff {
        3
    } else {
        4
    }
}

/// The bytes of `s` from `start` to `end`, both character boundaries.
pub fn substring<'a>(s: &'a str, start: usize, end: usize) -> (r: &'a str)
    requires
        start <= end,
        on_boundary(s.spec_bytes(), start as int),
        on_boundary(s.spec_bytes(), end as int),
    ensures
        r.spec_bytes() == s.spec_bytes().subrange(start as int, end as int),
{
    proof {
        lemma_text_bytes(s@);
    }
    let (_, tail) = s.split_at(start);
    proof {
        let b = s.spec_bytes();
        let t = tail.spec_bytes();
        assert(t == b.subrange(start as int, b.len() as int));
        encode_utf8_valid_utf8(tail@);
        lemma_on_boundary(t, (end - start) as int);
        assert(on_boundary(t, (end - start) as int));
    }
    let (head, _) = tail.split_at(end - start);
    proof {
        assert(head.spec_bytes() =~= s.spec_bytes().subrange(start as int, end as int));
    }
    head
}

/// Replaces the bytes `start..end` of `text` by `with`.
///
/// Trusted: calls `String::replace_range`, which removes the given byte range and inserts
/// `with` in its place; it panics unless both ends are character boundaries and, through
/// allocation, when a longer result would exceed `isize::MAX` bytes, which `requires` rules out.
#[verifier::external_body]
pub(crate) fn string_replace_range(text: &mut String, start: usize, end: usize, with: &str)
    requires
        start <= end,
        is_char_boundary(utf8(old(text)@), start as int),
        is_char_boundary(utf8(old(text)@), end as int),
        with.spec_bytes().len() > end - start ==> utf8(old(text)@).len() - (end - start)
            + with.spec_bytes().len() <= isize::MAX,
    ensures
        utf8(final(text)@) == utf8(old(text)@).subrange(0, start as int) + with.spec_bytes()
            + utf8(old(text)@).subrange(end as int, utf8(old(text)@).len() as int),
{
    text.replace_range(start..end, with)
}

/// Inserts `c` at byte `idx` of `text`.
///
/// Trusted: calls `String::insert`, which inserts the encoding of `c` at the given byte
/// position; it panics unless the position is a character boundary and, through allocation,
/// when the result would exceed `isize::MAX` bytes, which `requires` rules out.
#[verifier::external_body]
pub(crate) fn string_insert(text: &mut String, idx: usize, c: char)
    requires
        is_char_boundary(utf8(old(text)@), idx as int),
        utf8(old(text)@).len() + 4 <= isize::MAX,
    ensures
        utf8(final(text)@) == utf8(old(text)@).subrange(0, idx as int) + encode_scalar(c as u32)
            + utf8(old(text)@).subrange(idx as int, utf8(old(text)@).len() as int),
{
    text.insert(idx, c)
}

} // verus!
