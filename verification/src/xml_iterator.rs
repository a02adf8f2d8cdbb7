//! A minimal XML tokenizer: enough of XML to read wayland protocol descriptions.
//!
//! The input is cut into tags, text and comments without building a tree; attributes are
//! read from a tag on demand. Positions are found on the UTF-8 bytes of the input, and every
//! cut falls next to an ASCII delimiter, so every piece is again a valid string.
use vstd::prelude::*;
use vstd::string::*;
use vstd::utf8::*;

verus! {

broadcast use vstd::string::group_string_axioms;

// ---- byte-level search

/// The first position at or after `from` where `needle` occurs in `hay`.
pub open spec fn find_from(hay: Seq<u8>, needle: Seq<u8>, from: int) -> Option<int>
    decreases hay.len() - from,
{
    if from < 0 || from + needle.len() > hay.len() {
        None
    } else if needle.len() == 0 || hay.subrange(from, from + needle.len()) == needle {
        Some(from)
    } else {
        find_from(hay, needle, from + 1)
    }
}

/// `needle` occurs in `hay` at position `j`.
pub open spec fn occurs_at(hay: Seq<u8>, needle: Seq<u8>, j: int) -> bool {
    0 <= j && j + needle.len() <= hay.len() && hay.subrange(j, j + needle.len()) == needle
}

/// The first position where `needle` occurs in `hay`.
pub open spec fn find_first(hay: Seq<u8>, needle: Seq<u8>) -> Option<int> {
    find_from(hay, needle, 0)
}

/// What a successful search tells: the needle occurs there, and nowhere between `from` and
/// there.
proof fn lemma_find_from_found(hay: Seq<u8>, needle: Seq<u8>, from: int)
    requires
        find_from(hay, needle, from) is Some,
    ensures
        ({
            let k = find_from(hay, needle, from)->0;
            &&& from <= k
            &&& k + needle.len() <= hay.len()
            &&& hay.subrange(k, k + needle.len()) == needle
            &&& forall|j: int| from <= j < k ==> !#[trigger] occurs_at(hay, needle, j)
        }),
    decreases hay.len() - from,
{
    if needle.len() == 0 {
        assert(hay.subrange(from, from) =~= needle);
    } else if hay.subrange(from, from + needle.len()) != needle {
        lemma_find_from_found(hay, needle, from + 1);
    }
}

/// What a failed search tells: the needle occurs nowhere at or after `from`.
proof fn lemma_find_from_missing(hay: Seq<u8>, needle: Seq<u8>, from: int, j: int)
    requires
        0 <= from,
        find_from(hay, needle, from) is None,
        from <= j,
        j + needle.len() <= hay.len(),
    ensures
        !occurs_at(hay, needle, j),
    decreases hay.len() - from,
{
    if needle.len() == 0 {
        assert(hay.subrange(from, from) =~= needle);
    }
    if j > from {
        lemma_find_from_missing(hay, needle, from + 1, j);
    }
}

/// Every byte is ASCII.
pub open spec fn all_ascii(s: Seq<u8>) -> bool {
    forall|i: int| 0 <= i < s.len() ==> s[i] < 0x80
}

/// The bytes of `<`.
pub open spec fn lt_bytes() -> Seq<u8> {
    seq![0x3cu8]
}

/// The bytes of `>`.
pub open spec fn gt_bytes() -> Seq<u8> {
    seq![0x3eu8]
}

/// The bytes of `=`.
pub open spec fn eq_bytes() -> Seq<u8> {
    seq![0x3du8]
}

/// The bytes of `"`.
pub open spec fn quote_bytes() -> Seq<u8> {
    seq![0x22u8]
}

/// The bytes of a space.
pub open spec fn space_bytes() -> Seq<u8> {
    seq![0x20u8]
}

/// The bytes of `</`.
pub open spec fn end_tag_open() -> Seq<u8> {
    seq![0x3cu8, 0x2fu8]
}

/// The bytes of `<!--`.
pub open spec fn comment_open() -> Seq<u8> {
    seq![0x3cu8, 0x21u8, 0x2du8, 0x2du8]
}

/// The bytes of `-->`.
pub open spec fn comment_close() -> Seq<u8> {
    seq![0x2du8, 0x2du8, 0x3eu8]
}

/// The bytes of `<?xml`.
pub open spec fn decl_open() -> Seq<u8> {
    seq![0x3cu8, 0x3fu8, 0x78u8, 0x6du8, 0x6cu8]
}

/// The bytes of `?>`.
pub open spec fn decl_close() -> Seq<u8> {
    seq![0x3fu8, 0x3eu8]
}

/// `hay` holds `needle` at position `at`.
fn matches_at(hay: &[u8], needle: &[u8], at: usize) -> (r: bool)
    requires
        at + needle@.len() <= hay@.len(),
    ensures
        r == (hay@.subrange(at as int, at + needle@.len()) == needle@),
{
    let hay_len = hay.len();
    let mut i: usize = 0;
    while i < needle.len()
        invariant
            hay@.len() == hay_len,
            at + needle@.len() <= hay@.len(),
            i <= needle@.len(),
            forall|j: int| 0 <= j < i ==> hay@[at + j] == needle@[j],
        decreases needle@.len() - i,
    {
        if hay[at + i] != needle[i] {
            proof {
                assert(hay@.subrange(at as int, at + needle@.len())[i as int] != needle@[i as int]);
            }
            return false;
        }
        i += 1;
    }
    assert(hay@.subrange(at as int, at + needle@.len()) =~= needle@);
    true
}

/// The first position where `needle` occurs in `hay`.
fn find_bytes(hay: &[u8], needle: &[u8]) -> (r: Option<usize>)
    ensures
        r matches Some(k) ==> find_first(hay@, needle@) == Some(k as int),
        r is None ==> find_first(hay@, needle@) is None,
{
    let mut i: usize = 0;
    while i <= hay.len() && needle.len() <= hay.len() - i
        invariant
            i <= hay@.len(),
            find_first(hay@, needle@) == find_from(hay@, needle@, i as int),
        decreases hay@.len() - i,
    {
        proof {
            if needle@.len() == 0 {
                assert(hay@.subrange(i as int, i as int) =~= needle@);
            }
        }
        if matches_at(hay, needle, i) {
            return Some(i);
        }
        i += 1;
    }
    None
}

/// `hay` starts with `prefix`.
fn starts_with_bytes(hay: &[u8], prefix: &[u8]) -> (r: bool)
    ensures
        r == prefix@.is_prefix_of(hay@),
{
    if prefix.len() > hay.len() {
        return false;
    }
    let r = matches_at(hay, prefix, 0);
    proof {
        assert(r == (hay@.subrange(0, prefix@.len() as int) == prefix@));
    }
    r
}

// ---- UTF-8 boundaries next to ASCII bytes

/// The position after an ASCII byte that starts a character starts a character too.
pub(crate) proof fn lemma_boundary_after_ascii(bytes: Seq<u8>, i: int)
    requires
        valid_utf8(bytes),
        0 <= i < bytes.len(),
        is_char_boundary(bytes, i),
        bytes[i] < 0x80,
    ensures
        is_char_boundary(bytes, i + 1),
    decreases bytes.len(),
{
    reveal_with_fuel(is_char_boundary, 2);
    if i != 0 {
        let l = length_of_first_scalar(bytes);
        lemma_boundary_after_ascii(pop_first_scalar(bytes), i - l);
    }
}

/// A run of ASCII bytes starting at a character boundary consists of character boundaries.
proof fn lemma_boundary_through_ascii(bytes: Seq<u8>, i: int, n: int)
    requires
        valid_utf8(bytes),
        0 <= i,
        0 <= n,
        i + n <= bytes.len(),
        is_char_boundary(bytes, i),
        forall|j: int| i <= j < i + n ==> bytes[j] < 0x80,
    ensures
        is_char_boundary(bytes, i + n),
    decreases n,
{
    if n > 0 {
        lemma_boundary_through_ascii(bytes, i, n - 1);
        lemma_boundary_after_ascii(bytes, i + n - 1);
    }
}

/// An ASCII byte starts a character.
proof fn lemma_ascii_is_boundary(bytes: Seq<u8>, i: int)
    requires
        valid_utf8(bytes),
        0 <= i <= bytes.len(),
        0 < i < bytes.len() ==> bytes[i] < 0x80,
    ensures
        is_char_boundary(bytes, i),
{
    if i == 0 {
    } else if i < bytes.len() {
        is_char_boundary_iff_not_is_continuation_byte(bytes, i);
    } else {
        is_char_boundary_start_end_of_seq(bytes);
    }
}

/// Splits `s` before byte `mid`, which is ASCII or the end.
fn split_before_ascii<'a>(s: &'a str, mid: usize) -> (r: (&'a str, &'a str))
    requires
        mid <= s.spec_bytes().len(),
        0 < mid < s.spec_bytes().len() ==> s.spec_bytes()[mid as int] < 0x80,
    ensures
        r.0.spec_bytes() == s.spec_bytes().subrange(0, mid as int),
        r.1.spec_bytes() == s.spec_bytes().subrange(mid as int, s.spec_bytes().len() as int),
{
    proof {
        encode_utf8_valid_utf8(s@);
        lemma_ascii_is_boundary(s.spec_bytes(), mid as int);
    }
    s.split_at(mid)
}

/// Splits `s` after the ASCII bytes `s[at..at + n]`, with `at` a character boundary.
fn split_after_ascii<'a>(s: &'a str, at: usize, n: usize) -> (r: (&'a str, &'a str))
    requires
        at + n <= s.spec_bytes().len(),
        at == 0 || is_char_boundary(s.spec_bytes(), at as int),
        forall|j: int| at <= j < at + n ==> s.spec_bytes()[j] < 0x80,
    ensures
        r.0.spec_bytes() == s.spec_bytes().subrange(0, at + n),
        r.1.spec_bytes() == s.spec_bytes().subrange(at + n, s.spec_bytes().len() as int),
{
    let _len = s.as_bytes().len();
    proof {
        encode_utf8_valid_utf8(s@);
        lemma_boundary_through_ascii(s.spec_bytes(), at as int, n as int);
    }
    s.split_at(at + n)
}

/// The chars of a string are the decoding of its bytes.
proof fn lemma_chars_of_bytes(s: &str)
    ensures
        s@ == decode_utf8(s.spec_bytes()),
{
    encode_utf8_decode_utf8(s@);
}

/// Splits `input` around the first occurrence of the ASCII `needle`: the part before it and
/// the part after it.
fn split_at_str<'a>(input: &'a str, needle: &str) -> (r: Option<(&'a str, &'a str)>)
    requires
        all_ascii(needle.spec_bytes()),
    ensures
        ({
            let b = input.spec_bytes();
            let n = needle.spec_bytes().len() as int;
            match find_first(b, needle.spec_bytes()) {
                None => r is None,
                Some(k) => r matches Some(p) && p.0.spec_bytes() == b.subrange(0, k)
                    && p.1.spec_bytes() == b.subrange(k + n, b.len() as int),
            }
        }),
{
    let end = match find_bytes(input.as_bytes(), needle.as_bytes()) {
        Some(end) => end,
        None => return None,
    };
    let ghost b = input.spec_bytes();
    let ghost nb = needle.spec_bytes();
    proof {
        lemma_find_from_found(b, nb, 0);
        if nb.len() > 0 {
            assert(b.subrange(end as int, end + nb.len()) == nb);
            assert(b[end as int] == nb[0]);
        } else {
            assert(occurs_at(b, nb, 0));
        }
        assert forall|j: int| end <= j < end + nb.len() implies b[j] < 0x80 by {
            assert(b[j] == b.subrange(end as int, end + nb.len())[j - end]);
        }
        encode_utf8_valid_utf8(input@);
        lemma_ascii_is_boundary(b, end as int);
    }
    let (head, _) = split_before_ascii(input, end);
    let (_, tail) = split_after_ascii(input, end, needle.as_bytes().len());
    Some((head, tail))
}


/// Finding in `h` without a match at 0 is finding in `h` without its first byte, shifted.
proof fn lemma_find_skip_first(h: Seq<u8>, n: Seq<u8>, from: int)
    requires
        h.len() > 0,
        1 <= from,
    ensures
        find_from(h, n, from) == (match find_from(h.skip(1), n, from - 1) {
            Some(k) => Some(k + 1),
            None => None,
        }),
    decreases h.len() - from,
{
    let t = h.skip(1);
    if from + n.len() <= h.len() && from < h.len() {
        assert(h.subrange(from, from + n.len()) =~= t.subrange(from - 1, from - 1 + n.len()));
        lemma_find_skip_first(h, n, from + 1);
    }
}

// ---- literals

fn lit_lt() -> (r: &'static str)
    ensures
        r.spec_bytes() == lt_bytes(),
{
    let s = "<";
    proof {
        reveal_strlit("<");
        is_ascii_chars_encode_utf8(s@);
    }
    s
}

fn lit_gt() -> (r: &'static str)
    ensures
        r.spec_bytes() == gt_bytes(),
{
    let s = ">";
    proof {
        reveal_strlit(">");
        is_ascii_chars_encode_utf8(s@);
    }
    s
}

fn lit_eq() -> (r: &'static str)
    ensures
        r.spec_bytes() == eq_bytes(),
{
    let s = "=";
    proof {
        reveal_strlit("=");
        is_ascii_chars_encode_utf8(s@);
    }
    s
}

fn lit_quote() -> (r: &'static str)
    ensures
        r.spec_bytes() == quote_bytes(),
{
    let s = "\"";
    proof {
        reveal_strlit("\"");
        is_ascii_chars_encode_utf8(s@);
    }
    s
}

fn lit_space() -> (r: &'static str)
    ensures
        r.spec_bytes() == space_bytes(),
{
    let s = " ";
    proof {
        reveal_strlit(" ");
        is_ascii_chars_encode_utf8(s@);
    }
    s
}

pub(crate) fn lit_empty() -> (r: &'static str)
    ensures
        r.spec_bytes() == Seq::<u8>::empty(),
        r@ == Seq::<char>::empty(),
{
    let s = "";
    proof {
        reveal_strlit("");
        is_ascii_chars_encode_utf8(s@);
    }
    s
}

fn lit_end_tag_open() -> (r: &'static str)
    ensures
        r.spec_bytes() == end_tag_open(),
{
    let s = "</";
    proof {
        reveal_strlit("</");
        is_ascii_chars_encode_utf8(s@);
    }
    s
}

fn lit_comment_open() -> (r: &'static str)
    ensures
        r.spec_bytes() == comment_open(),
{
    let s = "<!--";
    proof {
        reveal_strlit("<!--");
        is_ascii_chars_encode_utf8(s@);
    }
    s
}

fn lit_comment_close() -> (r: &'static str)
    ensures
        r.spec_bytes() == comment_close(),
{
    let s = "-->";
    proof {
        reveal_strlit("-->");
        is_ascii_chars_encode_utf8(s@);
    }
    s
}

fn lit_decl_open() -> (r: &'static str)
    ensures
        r.spec_bytes() == decl_open(),
{
    let s = "<?xml";
    proof {
        reveal_strlit("<?xml");
        is_ascii_chars_encode_utf8(s@);
    }
    s
}

fn lit_decl_close() -> (r: &'static str)
    ensures
        r.spec_bytes() == decl_close(),
{
    let s = "?>";
    proof {
        reveal_strlit("?>");
        is_ascii_chars_encode_utf8(s@);
    }
    s
}

// ---- white space

/// The characters with the Unicode `White_Space` property.
pub open spec fn is_white_space(c: char) -> bool {
    let v = c as u32;
    ||| 0x9 <= v <= 0xd
    ||| v == 0x20
    ||| v == 0x85
    ||| v == 0xa0
    ||| v == 0x1680
    ||| 0x2000 <= v <= 0x200a
    ||| v == 0x2028
    ||| v == 0x2029
    ||| v == 0x202f
    ||| v == 0x205f
    ||| v == 0x3000
}

/// Number of white space characters at the start of `s`.
pub open spec fn leading_white_space(s: Seq<char>) -> nat
    decreases s.len(),
{
    if s.len() > 0 && is_white_space(s[0]) {
        1 + leading_white_space(s.drop_first())
    } else {
        0
    }
}

/// Number of white space characters at the end of `s`.
pub open spec fn trailing_white_space(s: Seq<char>) -> nat
    decreases s.len(),
{
    if s.len() > 0 && is_white_space(s.last()) {
        1 + trailing_white_space(s.drop_last())
    } else {
        0
    }
}

/// `s` without its leading white space.
pub open spec fn trim_start_chars(s: Seq<char>) -> Seq<char> {
    s.subrange(leading_white_space(s) as int, s.len() as int)
}

/// `s` without its leading and trailing white space.
pub open spec fn trim_chars(s: Seq<char>) -> Seq<char> {
    let t = trim_start_chars(s);
    t.subrange(0, t.len() - trailing_white_space(t))
}

/// `str::trim_start`: the slice of `s` that remains once the leading characters with the
/// Unicode `White_Space` property are removed.
#[verifier::external_body]
fn trim_start(s: &str) -> (r: &str)
    ensures
        r@ == trim_start_chars(s@),
{
    s.trim_start()
}

/// `str::trim`: the slice of `s` that remains once the leading and trailing characters with
/// the Unicode `White_Space` property are removed.
#[verifier::external_body]
fn trim(s: &str) -> (r: &str)
    ensures
        r@ == trim_chars(s@),
{
    s.trim()
}

/// The two strings hold the same characters.
pub fn str_eq(a: &str, b: &str) -> (r: bool)
    ensures
        r == (a@ == b@),
{
    let x = a.as_bytes();
    let y = b.as_bytes();
    proof {
        lemma_chars_of_bytes(a);
        lemma_chars_of_bytes(b);
    }
    if x.len() != y.len() {
        return false;
    }
    let r = matches_at(x, y, 0);
    proof {
        assert(x@.subrange(0, y@.len() as int) =~= x@);
    }
    r
}

/// Removes the ASCII `prefix` from the start of `s`, when `s` starts with it.
fn strip_prefix<'a>(s: &'a str, prefix: &str) -> (r: Option<&'a str>)
    requires
        all_ascii(prefix.spec_bytes()),
    ensures
        r is Some <==> prefix.spec_bytes().is_prefix_of(s.spec_bytes()),
        r matches Some(t) ==> t.spec_bytes() == s.spec_bytes().subrange(
            prefix.spec_bytes().len() as int,
            s.spec_bytes().len() as int,
        ),
{
    if !starts_with_bytes(s.as_bytes(), prefix.as_bytes()) {
        return None;
    }
    proof {
        assert forall|j: int| 0 <= j < prefix.spec_bytes().len() implies s.spec_bytes()[j] < 0x80 by {
            assert(s.spec_bytes()[j] == prefix.spec_bytes()[j]);
        }
    }
    let (_, t) = split_after_ascii(s, 0, prefix.as_bytes().len());
    Some(t)
}

// ---- declaration

/// The input after its XML declaration, without the white space that follows the
/// declaration; `None` when the input does not start, after white space, with `<?xml`, or the
/// declaration is not closed by `?>`.
pub open spec fn stripped_decl(s: Seq<char>) -> Option<Seq<char>> {
    let b = encode_utf8(s);
    if decl_open().is_prefix_of(encode_utf8(trim_start_chars(s))) {
        match find_first(b, decl_close()) {
            Some(k) => Some(trim_start_chars(decode_utf8(b.subrange(k + 2, b.len() as int)))),
            None => None,
        }
    } else {
        None
    }
}

/// Removes the XML declaration (`<?xml ... ?>`) and the white space after it.
pub fn strip_decl(input: &str) -> (r: Option<&str>)
    ensures
        r is Some <==> stripped_decl(input@) is Some,
        r matches Some(t) ==> stripped_decl(input@) == Some(t@),
{
    if !starts_with_bytes(trim_start(input).as_bytes(), lit_decl_open().as_bytes()) {
        return None;
    }
    match split_at_str(input, lit_decl_close()) {
        Some((_, tail)) => {
            proof {
                lemma_chars_of_bytes(tail);
            }
            Some(trim_start(tail))
        },
        None => None,
    }
}

// ---- attributes

/// A `key="value"` pair of a tag.
#[derive(Debug, PartialEq, Eq)]
pub struct Attribute<'a> {
    pub key: &'a str,
    pub value: &'a str,
}

/// Every `=` that starts the next attribute is followed by `"`.
pub open spec fn attr_quoted(b: Seq<u8>) -> bool {
    match find_first(b, eq_bytes()) {
        Some(k) => k + 1 < b.len() && b[k + 1] == 0x22,
        None => true,
    }
}

/// The next attribute of `b` and what follows it: the trimmed key before the first `=`, the
/// bytes between the `"` after it and the next `"`, and the bytes after that quote.
pub open spec fn next_attr(b: Seq<u8>) -> Option<(Seq<char>, Seq<u8>, Seq<u8>)> {
    match find_first(b, eq_bytes()) {
        None => None,
        Some(k) => {
            let v = b.subrange(k + 2, b.len() as int);
            match find_first(v, quote_bytes()) {
                None => None,
                Some(m) => Some(
                    (
                        trim_chars(decode_utf8(b.subrange(0, k))),
                        v.subrange(0, m),
                        v.subrange(m + 1, v.len() as int),
                    ),
                ),
            }
        },
    }
}

/// Reads the attributes of a tag one by one.
pub struct AttributeIterator<'a> {
    attrs: &'a str,
}

impl<'a> AttributeIterator<'a> {
    /// The bytes not read yet.
    pub closed spec fn remaining(&self) -> Seq<u8> {
        self.attrs.spec_bytes()
    }

    /// Iterates over the attributes in `attrs`.
    pub fn new(attrs: &'a str) -> (r: Self)
        ensures
            r.remaining() == attrs.spec_bytes(),
    {
        Self { attrs }
    }

    /// The next attribute, or `None` (leaving the iterator as it is) when no complete
    /// `key="value"` pair is left.
    pub fn next(&mut self) -> (r: Option<Attribute<'a>>)
        requires
            attr_quoted(old(self).remaining()),
        ensures
            match next_attr(old(self).remaining()) {
                None => r is None && final(self).remaining() == old(self).remaining(),
                Some(parts) => r matches Some(a) && a.key@ == parts.0 && a.value.spec_bytes()
                    == parts.1 && final(self).remaining() == parts.2,
            },
            r is Some ==> final(self).remaining().len() < old(self).remaining().len(),
    {
        let ghost b = self.attrs.spec_bytes();
        let (key, rest) = match split_at_str(self.attrs, lit_eq()) {
            Some(p) => p,
            None => return None,
        };
        proof {
            let k = find_first(b, eq_bytes())->0;
            lemma_find_from_found(b, eq_bytes(), 0);
            assert(rest.spec_bytes()[0] == b[k + 1]);
        }
        let (_, after_quote) = split_after_ascii(rest, 0, 1);
        proof {
            let k = find_first(b, eq_bytes())->0;
            assert(after_quote.spec_bytes() =~= b.subrange(k + 2, b.len() as int));
        }
        let (value, rest) = match split_at_str(after_quote, lit_quote()) {
            Some(p) => p,
            None => return None,
        };
        proof {
            lemma_chars_of_bytes(key);
            lemma_find_from_found(after_quote.spec_bytes(), quote_bytes(), 0);
        }
        self.attrs = rest;
        Some(Attribute { key: trim(key), value })
    }

    /// Whether the next call of [`Self::next`] can go ahead: every `=` that starts the next
    /// attribute is followed by `"`.
    pub fn next_is_quoted(&self) -> (r: bool)
        ensures
            r == attr_quoted(self.remaining()),
    {
        let b = self.attrs.as_bytes();
        let n = b.len();
        match find_bytes(b, lit_eq().as_bytes()) {
            Some(k) => {
                proof {
                    lemma_find_from_found(b@, eq_bytes(), 0);
                }
                k + 1 < n && b[k + 1] == 0x22
            },
            None => true,
        }
    }
}


// ---- elements

/// A tag that closes itself: `<name attrs/>`.
#[derive(Debug, PartialEq, Eq)]
pub struct EmptyTag<'a> {
    pub name: &'a str,
    pub attrs: &'a str,
}

impl<'a> EmptyTag<'a> {
    /// Iterates over the attributes of the tag.
    pub fn iter_attrs(&self) -> (r: AttributeIterator<'a>)
        ensures
            r.remaining() == self.attrs.spec_bytes(),
    {
        AttributeIterator::new(self.attrs)
    }
}

/// An opening tag: `<name attrs>`.
#[derive(Debug, PartialEq, Eq)]
pub struct StartTag<'a> {
    pub name: &'a str,
    pub attrs: &'a str,
}

impl<'a> StartTag<'a> {
    /// Iterates over the attributes of the tag.
    pub fn iter_attrs(&self) -> (r: AttributeIterator<'a>)
        ensures
            r.remaining() == self.attrs.spec_bytes(),
    {
        AttributeIterator::new(self.attrs)
    }
}

/// A closing tag: `</name>`.
#[derive(Debug, PartialEq, Eq)]
pub struct EndTag<'a> {
    pub name: &'a str,
}

/// A piece of XML.
#[derive(Debug, PartialEq, Eq)]
pub enum Element<'a> {
    EmptyTag(EmptyTag<'a>),
    StartTag(StartTag<'a>),
    EndTag(EndTag<'a>),
    Text(&'a str),
    Comment(&'a str),
}

/// The name part of a tag body: everything before the first space.
pub open spec fn body_name(body: Seq<u8>) -> Seq<u8> {
    match find_first(body, space_bytes()) {
        Some(s) => body.subrange(0, s),
        None => body,
    }
}

/// The attribute part of a tag body: everything after the first space.
pub open spec fn body_attrs(body: Seq<u8>) -> Seq<u8> {
    match find_first(body, space_bytes()) {
        Some(s) => body.subrange(s + 1, body.len() as int),
        None => Seq::empty(),
    }
}

/// `<name attrs/>` at the start of `b`: the name, the trimmed attributes and the rest. The tag
/// ends at the first `>`, which must follow a `/`.
pub open spec fn empty_tag_parts(b: Seq<u8>) -> Option<(Seq<u8>, Seq<char>, Seq<u8>)> {
    match find_first(b, gt_bytes()) {
        Some(k) => if k >= 2 && b[k - 1] == 0x2f {
            let body = b.subrange(1, k - 1);
            Some(
                (
                    body_name(body),
                    trim_chars(decode_utf8(body_attrs(body))),
                    b.subrange(k + 1, b.len() as int),
                ),
            )
        } else {
            None
        },
        None => None,
    }
}

/// `</name>` at the start of `b`: the name and the rest.
pub open spec fn end_tag_parts(b: Seq<u8>) -> Option<(Seq<u8>, Seq<u8>)> {
    if end_tag_open().is_prefix_of(b) {
        let c = b.subrange(2, b.len() as int);
        match find_first(c, gt_bytes()) {
            Some(k) => Some((c.subrange(0, k), c.subrange(k + 1, c.len() as int))),
            None => None,
        }
    } else {
        None
    }
}

/// `<name attrs>` at the start of `b`: the name, the attributes and the rest.
pub open spec fn start_tag_parts(b: Seq<u8>) -> Option<(Seq<u8>, Seq<u8>, Seq<u8>)> {
    let c = b.subrange(1, b.len() as int);
    match find_first(c, gt_bytes()) {
        Some(k) => {
            let body = c.subrange(0, k);
            Some((body_name(body), body_attrs(body), c.subrange(k + 1, c.len() as int)))
        },
        None => None,
    }
}

/// The text at the start of `b` (everything up to the next `<`) and the rest.
pub open spec fn text_parts(b: Seq<u8>) -> (Seq<u8>, Seq<u8>) {
    match find_first(b, lt_bytes()) {
        Some(k) => (b.subrange(0, k), b.subrange(k, b.len() as int)),
        None => (b, Seq::empty()),
    }
}

/// `<!--comment-->` at the start of `b`: the comment and the rest.
pub open spec fn comment_parts(b: Seq<u8>) -> Option<(Seq<u8>, Seq<u8>)> {
    let c = b.subrange(4, b.len() as int);
    match find_first(c, comment_close()) {
        Some(k) => Some((c.subrange(0, k), c.subrange(k + 3, c.len() as int))),
        None => None,
    }
}

/// The content of an element, as characters.
pub enum ElementModel {
    EmptyTag { name: Seq<char>, attrs: Seq<char> },
    StartTag { name: Seq<char>, attrs: Seq<char> },
    EndTag { name: Seq<char> },
    Text(Seq<char>),
    Comment(Seq<char>),
}

impl<'a> View for Element<'a> {
    type V = ElementModel;

    open spec fn view(&self) -> ElementModel {
        match self {
            Element::EmptyTag(t) => ElementModel::EmptyTag { name: t.name@, attrs: t.attrs@ },
            Element::StartTag(t) => ElementModel::StartTag { name: t.name@, attrs: t.attrs@ },
            Element::EndTag(t) => ElementModel::EndTag { name: t.name@ },
            Element::Text(t) => ElementModel::Text(t@),
            Element::Comment(t) => ElementModel::Comment(t@),
        }
    }
}

/// One step of the tokenizer on `b`: the element that comes first and the bytes left after
/// it. Empty input gives nothing; `<!--` starts a comment; otherwise `<` starts a
/// self-closing tag, a closing tag or an opening tag, tried in that order; anything else is
/// text up to the next `<`. An element that is not complete gives nothing.
pub open spec fn lex_step(b: Seq<u8>) -> Option<(ElementModel, Seq<u8>)> {
    if b.len() == 0 {
        None
    } else if comment_open().is_prefix_of(b) {
        match comment_parts(b) {
            Some(p) => Some((ElementModel::Comment(decode_utf8(p.0)), p.1)),
            None => None,
        }
    } else if b[0] == 0x3c {
        match empty_tag_parts(b) {
            Some(p) => Some((ElementModel::EmptyTag { name: decode_utf8(p.0), attrs: p.1 }, p.2)),
            None => match end_tag_parts(b) {
                Some(p) => Some((ElementModel::EndTag { name: decode_utf8(p.0) }, p.1)),
                None => match start_tag_parts(b) {
                    Some(p) => Some(
                        (
                            ElementModel::StartTag { name: decode_utf8(p.0), attrs: decode_utf8(p.1) },
                            p.2,
                        ),
                    ),
                    None => None,
                },
            },
        }
    } else {
        Some((ElementModel::Text(decode_utf8(text_parts(b).0)), text_parts(b).1))
    }
}

/// Cuts XML input into elements.
pub struct ElementIterator<'a> {
    input: &'a str,
}

impl<'a> ElementIterator<'a> {
    /// The characters not read yet.
    pub closed spec fn remaining(&self) -> Seq<char> {
        self.input@
    }

    /// The bytes not read yet.
    pub open spec fn remaining_bytes(&self) -> Seq<u8> {
        encode_utf8(self.remaining())
    }

    /// Iterates over the elements of `input`, skipping its XML declaration.
    pub fn new(input: &'a str) -> (r: Self)
        ensures
            r.remaining() == (match stripped_decl(input@) {
                Some(t) => t,
                None => input@,
            }),
    {
        let input = match strip_decl(input) {
            Some(stripped) => stripped,
            None => input,
        };
        Self { input }
    }

    /// Splits the body of a tag into its name and its attributes at the first space.
    fn split_body(body: &'a str) -> (r: (&'a str, &'a str))
        ensures
            r.0.spec_bytes() == body_name(body.spec_bytes()),
            r.1.spec_bytes() == body_attrs(body.spec_bytes()),
    {
        match split_at_str(body, lit_space()) {
            Some(p) => p,
            None => {
                proof {
                    assert(body.spec_bytes().subrange(0, body.spec_bytes().len() as int) =~= body.spec_bytes());
                }
                (body, lit_empty())
            },
        }
    }

    /// Reads a self-closing tag.
    pub fn next_empty_tag(&mut self) -> (r: Option<Element<'a>>)
        requires
            old(self).remaining_bytes().len() > 0,
            old(self).remaining_bytes()[0] == 0x3c,
        ensures
            match empty_tag_parts(old(self).remaining_bytes()) {
                Some(p) => (r matches Some(Element::EmptyTag(t)) && t.name.spec_bytes() == p.0
                    && t.attrs@ == p.1) && final(self).remaining_bytes() == p.2,
                None => r is None && final(self).remaining() == old(self).remaining(),
            },
    {
        let ghost b = self.input.spec_bytes();
        let (content, rest) = match split_at_str(self.input, lit_gt()) {
            Some(p) => p,
            None => return None,
        };
        let ghost k = find_first(b, gt_bytes())->0;
        proof {
            lemma_find_from_found(b, gt_bytes(), 0);
            if k == 0 {
                assert(b.subrange(0, 1)[0] == b[0]);
            }
        }
        let cb = content.as_bytes();
        let clen = cb.len();
        if clen < 2 || cb[clen - 1] != 0x2f {
            return None;
        }
        // drop the leading `<` and the trailing `/`
        let (without_slash, _) = split_before_ascii(content, clen - 1);
        proof {
            assert(without_slash.spec_bytes()[0] == b[0]);
        }
        let (_, body) = split_after_ascii(without_slash, 0, 1);
        proof {
            assert(body.spec_bytes() =~= b.subrange(1, k - 1));
        }
        let (name, attrs) = Self::split_body(body);
        proof {
            lemma_chars_of_bytes(attrs);
            lemma_chars_of_bytes(rest);
            lemma_chars_of_bytes(self.input);
        }
        self.input = rest;
        Some(Element::EmptyTag(EmptyTag { name, attrs: trim(attrs) }))
    }

    /// Reads a closing tag.
    pub fn next_end_tag(&mut self) -> (r: Option<Element<'a>>)
        requires
            old(self).remaining_bytes().len() > 0,
            old(self).remaining_bytes()[0] == 0x3c,
        ensures
            match end_tag_parts(old(self).remaining_bytes()) {
                Some(p) => (r matches Some(Element::EndTag(t)) && t.name.spec_bytes() == p.0)
                    && final(self).remaining_bytes() == p.1,
                None => r is None && final(self).remaining() == old(self).remaining(),
            },
    {
        let content = match strip_prefix(self.input, lit_end_tag_open()) {
            Some(c) => c,
            None => return None,
        };
        let (name, rest) = match split_at_str(content, lit_gt()) {
            Some(p) => p,
            None => return None,
        };
        proof {
            lemma_chars_of_bytes(rest);
        }
        self.input = rest;
        Some(Element::EndTag(EndTag { name }))
    }

    /// Reads an opening tag.
    pub fn next_start_tag(&mut self) -> (r: Option<Element<'a>>)
        requires
            old(self).remaining_bytes().len() > 0,
            old(self).remaining_bytes()[0] == 0x3c,
            find_first(old(self).remaining_bytes(), gt_bytes()) matches Some(k)
                ==> old(self).remaining_bytes()[k - 1] != 0x2f,
        ensures
            match start_tag_parts(old(self).remaining_bytes()) {
                Some(p) => (r matches Some(Element::StartTag(t)) && t.name.spec_bytes() == p.0
                    && t.attrs.spec_bytes() == p.1) && final(self).remaining_bytes() == p.2,
                None => r is None && final(self).remaining() == old(self).remaining(),
            },
    {
        let ghost b = self.input.spec_bytes();
        let (_, after_lt) = split_after_ascii(self.input, 0, 1);
        let (content, rest) = match split_at_str(after_lt, lit_gt()) {
            Some(p) => p,
            None => return None,
        };
        let (name, attrs) = Self::split_body(content);
        proof {
            lemma_chars_of_bytes(rest);
        }
        self.input = rest;
        Some(Element::StartTag(StartTag { name, attrs }))
    }

    /// Reads text up to the next `<`.
    pub fn next_text(&mut self) -> (r: Option<Element<'a>>)
        requires
            old(self).remaining_bytes().len() > 0,
            old(self).remaining_bytes()[0] != 0x3c,
        ensures
            (r matches Some(Element::Text(t)) && t.spec_bytes() == text_parts(
                old(self).remaining_bytes(),
            ).0) && final(self).remaining_bytes() == text_parts(old(self).remaining_bytes()).1,
    {
        let ghost b = self.input.spec_bytes();
        match find_bytes(self.input.as_bytes(), lit_lt().as_bytes()) {
            Some(end) => {
                proof {
                    lemma_find_from_found(b, lt_bytes(), 0);
                    if end > 0 {
                        assert(b[end as int] == b.subrange(end as int, end + 1)[0]);
                    }
                }
                let (content, rest) = split_before_ascii(self.input, end);
                proof {
                    lemma_chars_of_bytes(rest);
                }
                self.input = rest;
                Some(Element::Text(content))
            },
            None => {
                let ret = Some(Element::Text(self.input));
                self.input = lit_empty();
                proof {
                    assert(b.subrange(0, b.len() as int) =~= b);
                }
                ret
            },
        }
    }

    /// Reads a comment.
    pub fn next_comment(&mut self) -> (r: Option<Element<'a>>)
        requires
            comment_open().is_prefix_of(old(self).remaining_bytes()),
        ensures
            match comment_parts(old(self).remaining_bytes()) {
                Some(p) => (r matches Some(Element::Comment(t)) && t.spec_bytes() == p.0)
                    && final(self).remaining_bytes() == p.1,
                None => r is None && final(self).remaining() == old(self).remaining(),
            },
    {
        let ghost b = self.input.spec_bytes();
        proof {
            assert forall|j: int| 0 <= j < 4 implies b[j] < 0x80 by {
                assert(b[j] == comment_open()[j]);
            }
        }
        let (_, after_open) = split_after_ascii(self.input, 0, 4);
        let (content, rest) = match split_at_str(after_open, lit_comment_close()) {
            Some(p) => p,
            None => return None,
        };
        proof {
            lemma_chars_of_bytes(rest);
        }
        self.input = rest;
        Some(Element::Comment(content))
    }

    /// The next element, or `None` when the input is used up or the next element is not
    /// complete.
    pub fn next(&mut self) -> (r: Option<Element<'a>>)
        ensures
            match lex_step(old(self).remaining_bytes()) {
                None => r is None && final(self).remaining() == old(self).remaining(),
                Some(step) => r matches Some(e) && e@ == step.0 && final(self).remaining_bytes()
                    == step.1,
            },
            r is Some ==> final(self).remaining_bytes().len() < old(self).remaining_bytes().len(),
    {
        let ghost b = self.input.spec_bytes();
        let bytes = self.input.as_bytes();
        if bytes.len() == 0 {
            return None;
        }
        if starts_with_bytes(bytes, lit_comment_open().as_bytes()) {
            proof {
                let c = b.subrange(4, b.len() as int);
                if find_first(c, comment_close()) is Some {
                    lemma_find_from_found(c, comment_close(), 0);
                }
            }
            let r = self.next_comment();
            proof {
                if let Some(Element::Comment(t)) = &r {
                    lemma_chars_of_bytes(t);
                }
            }
            return r;
        }
        if bytes[0] == 0x3c {
            proof {
                if find_first(b, gt_bytes()) is Some {
                    lemma_find_from_found(b, gt_bytes(), 0);
                }
                if b.len() >= 2 {
                    let c = b.subrange(2, b.len() as int);
                    if find_first(c, gt_bytes()) is Some {
                        lemma_find_from_found(c, gt_bytes(), 0);
                    }
                }
                let d = b.subrange(1, b.len() as int);
                if find_first(d, gt_bytes()) is Some {
                    lemma_find_from_found(d, gt_bytes(), 0);
                }
            }
            match self.next_empty_tag() {
                Some(e) => {
                    proof {
                        if let Element::EmptyTag(t) = &e {
                            lemma_chars_of_bytes(t.name);
                        }
                    }
                    return Some(e);
                },
                None => {},
            }
            match self.next_end_tag() {
                Some(e) => {
                    proof {
                        if let Element::EndTag(t) = &e {
                            lemma_chars_of_bytes(t.name);
                        }
                    }
                    return Some(e);
                },
                None => {},
            }
            proof {
                if let Some(k) = find_first(b, gt_bytes()) {
                    lemma_find_from_found(b, gt_bytes(), 0);
                    assert(k >= 1) by {
                        if k == 0 {
                            assert(b.subrange(0, 1)[0] == b[0]);
                        }
                    }
                    assert(b[k - 1] != 0x2f) by {
                        if k == 1 {
                            assert(b[0] == 0x3c);
                        }
                    }
                }
            }
            let r = self.next_start_tag();
            proof {
                if let Some(Element::StartTag(t)) = &r {
                    lemma_chars_of_bytes(t.name);
                    lemma_chars_of_bytes(t.attrs);
                }
            }
            return r;
        }
        proof {
            if find_first(b, lt_bytes()) is Some {
                lemma_find_from_found(b, lt_bytes(), 0);
                let k = find_first(b, lt_bytes())->0;
                assert(b[k] == b.subrange(k, k + 1)[0]);
            }
        }
        let r = self.next_text();
        proof {
            if let Some(Element::Text(t)) = &r {
                lemma_chars_of_bytes(t);
            }
        }
        r
    }
}

} // verus!
