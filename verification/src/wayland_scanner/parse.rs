//! Reads a wayland protocol description into a [`Protocol`].
use crate::wayland_scanner::protocol::{
    opt_chars, Arg, ArgModel, ArgType, Entry, EntryModel, Enum, EnumModel, Interface,
    InterfaceModel, Message, MessageModel, Protocol, ProtocolModel,
};
use crate::xml_iterator::{
    attr_quoted, lex_step, lit_empty, next_attr, str_eq, stripped_decl, AttributeIterator,
    Element, ElementIterator, ElementModel,
};
use vstd::prelude::*;
use vstd::string::*;
use vstd::utf8::*;

verus! {

broadcast use vstd::string::group_string_axioms;

/// Why a protocol description could not be read.
#[derive(Debug)]
pub enum ParseError<'a> {
    /// An attribute that must be a number is not one.
    Num(&'a str),
    /// An argument type that the protocol format does not define.
    UnknownArgType(&'a str),
    /// The elements are not nested as the protocol format requires, or an attribute value is
    /// not quoted. [`parse_protocol`] requires descriptions where this cannot happen.
    Malformed,
}

/// A parse error, with its strings as characters.
pub enum ParseErrorModel {
    Num(Seq<char>),
    UnknownArgType(Seq<char>),
    Malformed,
}

impl<'a> View for ParseError<'a> {
    type V = ParseErrorModel;

    open spec fn view(&self) -> ParseErrorModel {
        match self {
            ParseError::Num(s) => ParseErrorModel::Num(s@),
            ParseError::UnknownArgType(s) => ParseErrorModel::UnknownArgType(s@),
            ParseError::Malformed => ParseErrorModel::Malformed,
        }
    }
}

// ---- numbers

/// Value of an ASCII digit in base 10 or 16 (`0-9`, and `a-f`, `A-F` in base 16).
pub open spec fn digit_value(c: u8, radix: nat) -> Option<nat> {
    if 0x30 <= c <= 0x39 {
        Some((c - 0x30) as nat)
    } else if radix == 16 && 0x61 <= c <= 0x66 {
        Some((c - 0x61 + 10) as nat)
    } else if radix == 16 && 0x41 <= c <= 0x46 {
        Some((c - 0x41 + 10) as nat)
    } else {
        None
    }
}

/// Value of a string of digits, most significant first; `None` if some byte is no digit.
pub open spec fn digits_value(b: Seq<u8>, radix: nat) -> Option<nat>
    decreases b.len(),
{
    if b.len() == 0 {
        Some(0)
    } else {
        match digits_value(b.drop_last(), radix) {
            Some(v) => match digit_value(b.last(), radix) {
                Some(d) => Some(v * radix + d),
                None => None,
            },
            None => None,
        }
    }
}

/// `u32::from_str_radix`: an optional `+` followed by at least one digit, with a value that
/// fits in 32 bits.
pub open spec fn parse_unsigned(b: Seq<u8>, radix: nat) -> Option<u32> {
    let d = if b.len() > 0 && b[0] == 0x2b {
        b.subrange(1, b.len() as int)
    } else {
        b
    };
    if d.len() == 0 {
        None
    } else {
        match digits_value(d, radix) {
            Some(v) => if v <= u32::MAX {
                Some(v as u32)
            } else {
                None
            },
            None => None,
        }
    }
}

/// A protocol number: hexadecimal after `0x`, decimal otherwise.
pub open spec fn parse_num_spec(b: Seq<u8>) -> Option<u32> {
    if b.len() < 2 || !(b[0] == 0x30 && b[1] == 0x78) {
        parse_unsigned(b, 10)
    } else {
        parse_unsigned(b.subrange(2, b.len() as int), 16)
    }
}

/// A longer string of digits is worth at least as much as its prefix.
proof fn lemma_digits_value_grows(b: Seq<u8>, radix: nat, i: int)
    requires
        radix >= 1,
        0 <= i <= b.len(),
        digits_value(b.take(i), radix) is Some,
        digits_value(b, radix) is Some,
    ensures
        digits_value(b.take(i), radix)->0 <= digits_value(b, radix)->0,
    decreases b.len(),
{
    if i < b.len() {
        let p = b.drop_last();
        assert(p.take(i) =~= b.take(i));
        lemma_digits_value_grows(p, radix, i);
        let v = digits_value(p, radix)->0;
        assert(v <= v * radix) by (nonlinear_arith)
            requires
                radix >= 1,
        ;
    } else {
        assert(b.take(i) =~= b);
    }
}

/// The digits `b[from..]` in base `radix`, as a `u32` when they fit.
fn parse_digits(b: &[u8], from: usize, radix: u64) -> (r: Option<u32>)
    requires
        from <= b@.len(),
        radix == 10 || radix == 16,
    ensures
        ({
            let d = b@.subrange(from as int, b@.len() as int);
            match r {
                Some(v) => digits_value(d, radix as nat) == Some(v as nat),
                None => digits_value(d, radix as nat) is None || digits_value(
                    d,
                    radix as nat,
                )->0 > u32::MAX,
            }
        }),
{
    let ghost d = b@.subrange(from as int, b@.len() as int);
    let mut acc: u64 = 0;
    let mut i: usize = from;
    let n = b.len();
    while i < n
        invariant
            from <= i <= n,
            n == b@.len(),
            radix == 10 || radix == 16,
            d == b@.subrange(from as int, n as int),
            acc <= u32::MAX,
            digits_value(d.take(i - from), radix as nat) == Some(acc as nat),
        decreases n - i,
    {
        let c = b[i];
        let digit: u64 = if 0x30 <= c && c <= 0x39 {
            (c - 0x30) as u64
        } else if radix == 16 && 0x61 <= c && c <= 0x66 {
            (c - 0x61 + 10) as u64
        } else if radix == 16 && 0x41 <= c && c <= 0x46 {
            (c - 0x41 + 10) as u64
        } else {
            proof {
                let t = d.take(i - from + 1);
                assert(t.drop_last() =~= d.take(i - from));
                assert(t.last() == c);
                if digits_value(d, radix as nat) is Some {
                    lemma_digits_value_none_prefix(d, radix as nat, i - from + 1);
                }
            }
            return None;
        };
        assert(acc * radix + digit <= u32::MAX * 16 + 15) by (nonlinear_arith)
            requires
                acc <= u32::MAX,
                radix <= 16,
                digit <= 15,
        ;
        let next = acc * radix + digit;
        proof {
            let t = d.take(i - from + 1);
            assert(t.drop_last() =~= d.take(i - from));
            assert(t.last() == c);
        }
        if next > u32::MAX as u64 {
            proof {
                if digits_value(d, radix as nat) is Some {
                    lemma_digits_value_grows(d, radix as nat, i - from + 1);
                }
            }
            return None;
        }
        acc = next;
        i += 1;
    }
    proof {
        assert(d.take(n - from) =~= d);
    }
    Some(acc as u32)
}

/// A string of digits with a non-digit in its prefix has no value.
proof fn lemma_digits_value_none_prefix(b: Seq<u8>, radix: nat, i: int)
    requires
        0 <= i <= b.len(),
        digits_value(b.take(i), radix) is None,
    ensures
        digits_value(b, radix) is None,
    decreases b.len(),
{
    if i < b.len() {
        let p = b.drop_last();
        assert(p.take(i) =~= b.take(i));
        lemma_digits_value_none_prefix(p, radix, i);
    } else {
        assert(b.take(i) =~= b);
    }
}

/// `u32::from_str_radix` on `b[from..]`.
fn parse_unsigned_bytes(b: &[u8], from: usize, radix: u64) -> (r: Option<u32>)
    requires
        from <= b@.len(),
        radix == 10 || radix == 16,
    ensures
        r == parse_unsigned(b@.subrange(from as int, b@.len() as int), radix as nat),
{
    let ghost s = b@.subrange(from as int, b@.len() as int);
    let n = b.len();
    let start = if from < n && b[from] == 0x2b {
        from + 1
    } else {
        from
    };
    proof {
        if start == from + 1 {
            assert(s.subrange(1, s.len() as int) =~= b@.subrange(start as int, n as int));
        }
    }
    if start == n {
        return None;
    }
    parse_digits(b, start, radix)
}

/// Reads a protocol number: hexadecimal after `0x`, decimal otherwise.
pub fn parse_num<'a>(s: &'a str) -> (r: Result<u32, ParseError<'a>>)
    ensures
        match parse_num_spec(s.spec_bytes()) {
            Some(v) => r == Ok::<u32, ParseError<'a>>(v),
            None => r matches Err(ParseError::Num(t)) && t@ == s@,
        },
{
    let b = s.as_bytes();
    let parsed = if b.len() < 2 || !(b[0] == 0x30 && b[1] == 0x78) {
        proof {
            assert(b@.subrange(0, b@.len() as int) =~= b@);
        }
        parse_unsigned_bytes(b, 0, 10)
    } else {
        parse_unsigned_bytes(b, 2, 16)
    };
    match parsed {
        Some(v) => Ok(v),
        None => Err(ParseError::Num(s)),
    }
}

// ---- argument types

/// The argument type a `type` attribute names.
pub open spec fn arg_type_of(b: Seq<u8>) -> Option<ArgType> {
    if b == "new_id".spec_bytes() {
        Some(ArgType::NewId)
    } else if b == "int".spec_bytes() {
        Some(ArgType::Int)
    } else if b == "uint".spec_bytes() {
        Some(ArgType::Uint)
    } else if b == "fixed".spec_bytes() {
        Some(ArgType::Fixed)
    } else if b == "string".spec_bytes() {
        Some(ArgType::String)
    } else if b == "object".spec_bytes() {
        Some(ArgType::Object)
    } else if b == "array".spec_bytes() {
        Some(ArgType::Array)
    } else if b == "fd".spec_bytes() {
        Some(ArgType::Fd)
    } else {
        None
    }
}

/// The value of a `type` attribute that names an argument type.
pub open spec fn arg_type_name(t: ArgType) -> Seq<u8> {
    match t {
        ArgType::NewId => seq![110u8, 101, 119, 95, 105, 100],
        ArgType::Int => seq![105u8, 110, 116],
        ArgType::Uint => seq![117u8, 105, 110, 116],
        ArgType::Fixed => seq![102u8, 105, 120, 101, 100],
        ArgType::String => seq![115u8, 116, 114, 105, 110, 103],
        ArgType::Object => seq![111u8, 98, 106, 101, 99, 116],
        ArgType::Array => seq![97u8, 114, 114, 97, 121],
        ArgType::Fd => seq![102u8, 100],
    }
}

/// The bytes of the type names as the parser compares them.
proof fn lemma_type_name_bytes()
    ensures
        "new_id".spec_bytes() == arg_type_name(ArgType::NewId),
        "int".spec_bytes() == arg_type_name(ArgType::Int),
        "uint".spec_bytes() == arg_type_name(ArgType::Uint),
        "fixed".spec_bytes() == arg_type_name(ArgType::Fixed),
        "string".spec_bytes() == arg_type_name(ArgType::String),
        "object".spec_bytes() == arg_type_name(ArgType::Object),
        "array".spec_bytes() == arg_type_name(ArgType::Array),
        "fd".spec_bytes() == arg_type_name(ArgType::Fd),
{
    reveal_strlit("new_id");
    assert(is_ascii("new_id"));
    reveal_strlit("int");
    assert(is_ascii("int"));
    reveal_strlit("uint");
    assert(is_ascii("uint"));
    reveal_strlit("fixed");
    assert(is_ascii("fixed"));
    reveal_strlit("string");
    assert(is_ascii("string"));
    reveal_strlit("object");
    assert(is_ascii("object"));
    reveal_strlit("array");
    assert(is_ascii("array"));
    reveal_strlit("fd");
    assert(is_ascii("fd"));
    assert("new_id".spec_bytes() =~= arg_type_name(ArgType::NewId));
    assert("int".spec_bytes() =~= arg_type_name(ArgType::Int));
    assert("uint".spec_bytes() =~= arg_type_name(ArgType::Uint));
    assert("fixed".spec_bytes() =~= arg_type_name(ArgType::Fixed));
    assert("string".spec_bytes() =~= arg_type_name(ArgType::String));
    assert("object".spec_bytes() =~= arg_type_name(ArgType::Object));
    assert("array".spec_bytes() =~= arg_type_name(ArgType::Array));
    assert("fd".spec_bytes() =~= arg_type_name(ArgType::Fd));
}

/// A `type` attribute names argument type `t` exactly when its value is the name of `t`
/// (`new_id`, `int`, `uint`, `fixed`, `string`, `object`, `array` or `fd`).
pub proof fn law_arg_type_names(b: Seq<u8>, t: ArgType)
    ensures
        arg_type_of(b) == Some(t) <==> b == arg_type_name(t),
{
    lemma_type_name_bytes();
}

/// Different `type` attribute values never name the same argument type.
pub proof fn law_arg_type_parse_injective(a: Seq<u8>, b: Seq<u8>)
    requires
        arg_type_of(a) is Some,
        arg_type_of(a) == arg_type_of(b),
    ensures
        a == b,
{
    law_arg_type_names(a, arg_type_of(a)->0);
    law_arg_type_names(b, arg_type_of(a)->0);
}

/// The two byte strings are equal.
fn bytes_eq(a: &[u8], b: &[u8]) -> (r: bool)
    ensures
        r == (a@ == b@),
{
    if a.len() != b.len() {
        return false;
    }
    let mut i: usize = 0;
    while i < a.len()
        invariant
            i <= a@.len(),
            a@.len() == b@.len(),
            forall|j: int| 0 <= j < i ==> a@[j] == b@[j],
        decreases a@.len() - i,
    {
        if a[i] != b[i] {
            return false;
        }
        i += 1;
    }
    assert(a@ =~= b@);
    true
}

/// The argument type a `type` attribute names, if it names one.
pub fn parse_arg_type(bytes: &[u8]) -> (r: Option<ArgType>)
    ensures
        r == arg_type_of(bytes@),
{
    if bytes_eq(bytes, "new_id".as_bytes()) {
        Some(ArgType::NewId)
    } else if bytes_eq(bytes, "int".as_bytes()) {
        Some(ArgType::Int)
    } else if bytes_eq(bytes, "uint".as_bytes()) {
        Some(ArgType::Uint)
    } else if bytes_eq(bytes, "fixed".as_bytes()) {
        Some(ArgType::Fixed)
    } else if bytes_eq(bytes, "string".as_bytes()) {
        Some(ArgType::String)
    } else if bytes_eq(bytes, "object".as_bytes()) {
        Some(ArgType::Object)
    } else if bytes_eq(bytes, "array".as_bytes()) {
        Some(ArgType::Array)
    } else if bytes_eq(bytes, "fd".as_bytes()) {
        Some(ArgType::Fd)
    } else {
        None
    }
}


// ---- attributes

/// Applies `f` to the attributes of `b` in order, starting from `m`; the first error stops.
/// An attribute whose value is not quoted is an error.
pub open spec fn attr_fold<M>(
    b: Seq<u8>,
    m: M,
    f: spec_fn(M, Seq<char>, Seq<char>) -> Result<M, ParseErrorModel>,
) -> Result<M, ParseErrorModel>
    decreases b.len(),
{
    if !attr_quoted(b) {
        Err(ParseErrorModel::Malformed)
    } else {
        match next_attr(b) {
            None => Ok(m),
            Some(p) => if p.2.len() < b.len() {
                match f(m, p.0, decode_utf8(p.1)) {
                    Ok(m2) => attr_fold(p.2, m2, f),
                    Err(e) => Err(e),
                }
            } else {
                Ok(m)
            },
        }
    }
}

/// A number attribute, or the error naming its value.
pub open spec fn num_attr(v: Seq<char>) -> Result<u32, ParseErrorModel> {
    match parse_num_spec(encode_utf8(v)) {
        Some(n) => Ok(n),
        None => Err(ParseErrorModel::Num(v)),
    }
}

/// What an attribute of an `entry` tag does.
pub open spec fn entry_attr(e: EntryModel, k: Seq<char>, v: Seq<char>) -> Result<EntryModel, ParseErrorModel> {
    if k == "name"@ {
        Ok(EntryModel { name: v, ..e })
    } else if k == "value"@ {
        match num_attr(v) {
            Ok(n) => Ok(EntryModel { value: n, ..e }),
            Err(x) => Err(x),
        }
    } else if k == "since"@ {
        match num_attr(v) {
            Ok(n) => Ok(EntryModel { since: Some(n), ..e }),
            Err(x) => Err(x),
        }
    } else if k == "deprecated-since"@ {
        match num_attr(v) {
            Ok(n) => Ok(EntryModel { deprecated_since: Some(n), ..e }),
            Err(x) => Err(x),
        }
    } else {
        Ok(e)
    }
}

/// What an attribute of an `arg` tag does.
pub open spec fn arg_attr(a: ArgModel, k: Seq<char>, v: Seq<char>) -> Result<ArgModel, ParseErrorModel> {
    if k == "name"@ {
        Ok(ArgModel { name: v, ..a })
    } else if k == "type"@ {
        match arg_type_of(encode_utf8(v)) {
            Some(t) => Ok(ArgModel { arg_type: t, ..a }),
            None => Err(ParseErrorModel::UnknownArgType(v)),
        }
    } else if k == "interface"@ {
        Ok(ArgModel { interface: Some(v), ..a })
    } else if k == "allow_null"@ {
        Ok(ArgModel { allow_null: v == "true"@, ..a })
    } else if k == "enum"@ {
        Ok(ArgModel { enum_name: Some(v), ..a })
    } else {
        Ok(a)
    }
}

/// What an attribute of a `protocol` tag does to the protocol name.
pub open spec fn protocol_attr(name: Seq<char>, k: Seq<char>, v: Seq<char>) -> Result<Seq<char>, ParseErrorModel> {
    if k == "name"@ {
        Ok(v)
    } else {
        Ok(name)
    }
}

/// What an attribute of an `interface` tag does.
pub open spec fn interface_attr(i: InterfaceModel, k: Seq<char>, v: Seq<char>) -> Result<InterfaceModel, ParseErrorModel> {
    if k == "name"@ {
        Ok(InterfaceModel { name: v, ..i })
    } else if k == "version"@ {
        match num_attr(v) {
            Ok(n) => Ok(InterfaceModel { version: n, ..i }),
            Err(x) => Err(x),
        }
    } else {
        Ok(i)
    }
}

/// What an attribute of a `request` or `event` tag does.
pub open spec fn message_attr(m: MessageModel, k: Seq<char>, v: Seq<char>) -> Result<MessageModel, ParseErrorModel> {
    if k == "name"@ {
        Ok(MessageModel { name: v, ..m })
    } else if k == "type"@ {
        Ok(MessageModel { message_type: Some(v), ..m })
    } else if k == "since"@ {
        match num_attr(v) {
            Ok(n) => Ok(MessageModel { since: Some(n), ..m }),
            Err(x) => Err(x),
        }
    } else if k == "deprecated-since"@ {
        match num_attr(v) {
            Ok(n) => Ok(MessageModel { deprecated_since: Some(n), ..m }),
            Err(x) => Err(x),
        }
    } else {
        Ok(m)
    }
}

/// What an attribute of an `enum` tag does.
pub open spec fn enum_attr(e: EnumModel, k: Seq<char>, v: Seq<char>) -> Result<EnumModel, ParseErrorModel> {
    if k == "name"@ {
        Ok(EnumModel { name: v, ..e })
    } else if k == "since"@ {
        match num_attr(v) {
            Ok(n) => Ok(EnumModel { since: Some(n), ..e }),
            Err(x) => Err(x),
        }
    } else if k == "bitfield"@ {
        Ok(EnumModel { bitfield: v == "true"@, ..e })
    } else {
        Ok(e)
    }
}

/// [`entry_attr`] as a function value.
pub open spec fn entry_attr_fn() -> spec_fn(EntryModel, Seq<char>, Seq<char>) -> Result<EntryModel, ParseErrorModel> {
    |e: EntryModel, k: Seq<char>, v: Seq<char>| entry_attr(e, k, v)
}

/// [`arg_attr`] as a function value.
pub open spec fn arg_attr_fn() -> spec_fn(ArgModel, Seq<char>, Seq<char>) -> Result<ArgModel, ParseErrorModel> {
    |a: ArgModel, k: Seq<char>, v: Seq<char>| arg_attr(a, k, v)
}

/// [`protocol_attr`] as a function value.
pub open spec fn protocol_attr_fn() -> spec_fn(Seq<char>, Seq<char>, Seq<char>) -> Result<Seq<char>, ParseErrorModel> {
    |n: Seq<char>, k: Seq<char>, v: Seq<char>| protocol_attr(n, k, v)
}

/// [`interface_attr`] as a function value.
pub open spec fn interface_attr_fn() -> spec_fn(InterfaceModel, Seq<char>, Seq<char>) -> Result<InterfaceModel, ParseErrorModel> {
    |i: InterfaceModel, k: Seq<char>, v: Seq<char>| interface_attr(i, k, v)
}

/// [`message_attr`] as a function value.
pub open spec fn message_attr_fn() -> spec_fn(MessageModel, Seq<char>, Seq<char>) -> Result<MessageModel, ParseErrorModel> {
    |m: MessageModel, k: Seq<char>, v: Seq<char>| message_attr(m, k, v)
}

/// [`enum_attr`] as a function value.
pub open spec fn enum_attr_fn() -> spec_fn(EnumModel, Seq<char>, Seq<char>) -> Result<EnumModel, ParseErrorModel> {
    |e: EnumModel, k: Seq<char>, v: Seq<char>| enum_attr(e, k, v)
}

/// An entry before its attributes are read.
pub open spec fn default_entry() -> EntryModel {
    EntryModel { name: Seq::empty(), value: 0, since: None, deprecated_since: None }
}

/// An argument before its attributes are read.
pub open spec fn default_arg() -> ArgModel {
    ArgModel {
        name: Seq::empty(),
        arg_type: ArgType::NewId,
        interface: None,
        allow_null: false,
        enum_name: None,
    }
}

/// A message before its attributes are read.
pub open spec fn default_message() -> MessageModel {
    MessageModel {
        name: Seq::empty(),
        message_type: None,
        since: None,
        deprecated_since: None,
        args: Seq::empty(),
    }
}

/// An enumeration before its attributes are read.
pub open spec fn default_enum() -> EnumModel {
    EnumModel { name: Seq::empty(), since: None, bitfield: false, entries: Seq::empty() }
}

/// An interface before its attributes are read.
pub open spec fn default_interface() -> InterfaceModel {
    InterfaceModel {
        name: Seq::empty(),
        version: 0,
        requests: Seq::empty(),
        events: Seq::empty(),
        enums: Seq::empty(),
    }
}

/// Converts a number attribute, naming its value on failure.
fn num_value<'a>(v: &'a str) -> (r: Result<u32, ParseError<'a>>)
    ensures
        match num_attr(v@) {
            Ok(n) => r == Ok::<u32, ParseError<'a>>(n),
            Err(x) => r matches Err(e) && e@ == x,
        },
{
    proof {
        encode_utf8_decode_utf8(v@);
    }
    parse_num(v)
}

/// Reads the attributes of an `entry` tag.
fn parse_entry<'a>(attrs: &'a str) -> (r: Result<Entry<'a>, ParseError<'a>>)
    ensures
        match attr_fold(attrs.spec_bytes(), default_entry(), entry_attr_fn()) {
            Ok(m) => r matches Ok(e) && e@ == m,
            Err(x) => r matches Err(e) && e@ == x,
        },
{
    let mut entry = Entry { name: lit_empty(), value: 0, since: None, deprecated_since: None };
    assert(entry@ == default_entry());
    let mut it = AttributeIterator::new(attrs);
    loop
        invariant
            attr_fold(it.remaining(), entry@, entry_attr_fn()) == attr_fold(
                attrs.spec_bytes(),
                default_entry(),
                entry_attr_fn(),
            ),
        ensures
            attr_fold(attrs.spec_bytes(), default_entry(), entry_attr_fn()) == Ok::<
                EntryModel,
                ParseErrorModel,
            >(entry@),
        decreases it.remaining().len(),
    {
        if !it.next_is_quoted() {
            return Err(ParseError::Malformed);
        }
        let ghost before = it.remaining();
        let attr = match it.next() {
            Some(a) => a,
            None => break,
        };
        proof {
            lemma_value_chars(attr.value, before);
        }
        if str_eq(attr.key, "name") {
            entry.name = attr.value;
        } else if str_eq(attr.key, "value") {
            match num_value(attr.value) {
                Ok(n) => entry.value = n,
                Err(e) => return Err(e),
            }
        } else if str_eq(attr.key, "since") {
            match num_value(attr.value) {
                Ok(n) => entry.since = Some(n),
                Err(e) => return Err(e),
            }
        } else if str_eq(attr.key, "deprecated-since") {
            match num_value(attr.value) {
                Ok(n) => entry.deprecated_since = Some(n),
                Err(e) => return Err(e),
            }
        }
    }
    Ok(entry)
}

/// The characters of an attribute value are the decoding of its bytes.
proof fn lemma_value_chars(v: &str, before: Seq<u8>)
    ensures
        v@ == decode_utf8(v.spec_bytes()),
{
    encode_utf8_decode_utf8(v@);
}


/// Reads the attributes of an `arg` tag.
fn parse_arg<'a>(attrs: &'a str) -> (r: Result<Arg<'a>, ParseError<'a>>)
    ensures
        match attr_fold(attrs.spec_bytes(), default_arg(), arg_attr_fn()) {
            Ok(m) => r matches Ok(x) && x@ == m,
            Err(x) => r matches Err(e) && e@ == x,
        },
{
    let mut cur = Arg {
        name: lit_empty(),
        arg_type: ArgType::NewId,
        interface: None,
        allow_null: false,
        enum_name: None,
    };
    assert(cur@ == default_arg());
    let mut it = AttributeIterator::new(attrs);
    loop
        invariant
            attr_fold(it.remaining(), cur@, arg_attr_fn()) == attr_fold(
                attrs.spec_bytes(),
                default_arg(),
                arg_attr_fn(),
            ),
        ensures
            attr_fold(attrs.spec_bytes(), default_arg(), arg_attr_fn()) == Ok::<
                ArgModel,
                ParseErrorModel,
            >(cur@),
        decreases it.remaining().len(),
    {
        if !it.next_is_quoted() {
            return Err(ParseError::Malformed);
        }
        let ghost before = it.remaining();
        let attr = match it.next() {
            Some(a) => a,
            None => break,
        };
        proof {
            lemma_value_chars(attr.value, before);
        }
        if str_eq(attr.key, "name") {
            cur.name = attr.value;
        } else if str_eq(attr.key, "type") {
            match parse_arg_type(attr.value.as_bytes()) {
                Some(t) => cur.arg_type = t,
                None => return Err(ParseError::UnknownArgType(attr.value)),
            }
        } else if str_eq(attr.key, "interface") {
            cur.interface = Some(attr.value);
        } else if str_eq(attr.key, "allow_null") {
            cur.allow_null = str_eq(attr.value, "true");
        } else if str_eq(attr.key, "enum") {
            cur.enum_name = Some(attr.value);
        }
    }
    Ok(cur)
}

/// Reads the attributes of a `request` or `event` tag.
fn parse_message<'a>(attrs: &'a str) -> (r: Result<Message<'a>, ParseError<'a>>)
    ensures
        match attr_fold(attrs.spec_bytes(), default_message(), message_attr_fn()) {
            Ok(m) => r matches Ok(x) && x@ == m,
            Err(x) => r matches Err(e) && e@ == x,
        },
{
    let mut cur = Message {
        name: lit_empty(),
        message_type: None,
        since: None,
        deprecated_since: None,
        args: Vec::new(),
    };
    assert(cur@ =~= default_message());
    let mut it = AttributeIterator::new(attrs);
    loop
        invariant
            attr_fold(it.remaining(), cur@, message_attr_fn()) == attr_fold(
                attrs.spec_bytes(),
                default_message(),
                message_attr_fn(),
            ),
        ensures
            attr_fold(attrs.spec_bytes(), default_message(), message_attr_fn()) == Ok::<
                MessageModel,
                ParseErrorModel,
            >(cur@),
        decreases it.remaining().len(),
    {
        if !it.next_is_quoted() {
            return Err(ParseError::Malformed);
        }
        let ghost before = it.remaining();
        let attr = match it.next() {
            Some(a) => a,
            None => break,
        };
        proof {
            lemma_value_chars(attr.value, before);
        }
        if str_eq(attr.key, "name") {
            cur.name = attr.value;
        } else if str_eq(attr.key, "type") {
            cur.message_type = Some(attr.value);
        } else if str_eq(attr.key, "since") {
            match num_value(attr.value) {
                Ok(n) => cur.since = Some(n),
                Err(e) => return Err(e),
            }
        } else if str_eq(attr.key, "deprecated-since") {
            match num_value(attr.value) {
                Ok(n) => cur.deprecated_since = Some(n),
                Err(e) => return Err(e),
            }
        }
    }
    Ok(cur)
}

/// Reads the attributes of an `enum` tag.
fn parse_enum<'a>(attrs: &'a str) -> (r: Result<Enum<'a>, ParseError<'a>>)
    ensures
        match attr_fold(attrs.spec_bytes(), default_enum(), enum_attr_fn()) {
            Ok(m) => r matches Ok(x) && x@ == m,
            Err(x) => r matches Err(e) && e@ == x,
        },
{
    let mut cur = Enum { name: lit_empty(), since: None, bitfield: false, entries: Vec::new() };
    assert(cur@ =~= default_enum());
    let mut it = AttributeIterator::new(attrs);
    loop
        invariant
            attr_fold(it.remaining(), cur@, enum_attr_fn()) == attr_fold(
                attrs.spec_bytes(),
                default_enum(),
                enum_attr_fn(),
            ),
        ensures
            attr_fold(attrs.spec_bytes(), default_enum(), enum_attr_fn()) == Ok::<
                EnumModel,
                ParseErrorModel,
            >(cur@),
        decreases it.remaining().len(),
    {
        if !it.next_is_quoted() {
            return Err(ParseError::Malformed);
        }
        let ghost before = it.remaining();
        let attr = match it.next() {
            Some(a) => a,
            None => break,
        };
        proof {
            lemma_value_chars(attr.value, before);
        }
        if str_eq(attr.key, "name") {
            cur.name = attr.value;
        } else if str_eq(attr.key, "since") {
            match num_value(attr.value) {
                Ok(n) => cur.since = Some(n),
                Err(e) => return Err(e),
            }
        } else if str_eq(attr.key, "bitfield") {
            cur.bitfield = str_eq(attr.value, "true");
        }
    }
    Ok(cur)
}

/// Reads the attributes of an `interface` tag.
fn parse_interface<'a>(attrs: &'a str) -> (r: Result<Interface<'a>, ParseError<'a>>)
    ensures
        match attr_fold(attrs.spec_bytes(), default_interface(), interface_attr_fn()) {
            Ok(m) => r matches Ok(x) && x@ == m,
            Err(x) => r matches Err(e) && e@ == x,
        },
{
    let mut cur = Interface {
        name: lit_empty(),
        version: 0,
        requests: Vec::new(),
        events: Vec::new(),
        enums: Vec::new(),
    };
    assert(cur@ =~= default_interface());
    let mut it = AttributeIterator::new(attrs);
    loop
        invariant
            attr_fold(it.remaining(), cur@, interface_attr_fn()) == attr_fold(
                attrs.spec_bytes(),
                default_interface(),
                interface_attr_fn(),
            ),
        ensures
            attr_fold(attrs.spec_bytes(), default_interface(), interface_attr_fn()) == Ok::<
                InterfaceModel,
                ParseErrorModel,
            >(cur@),
        decreases it.remaining().len(),
    {
        if !it.next_is_quoted() {
            return Err(ParseError::Malformed);
        }
        let ghost before = it.remaining();
        let attr = match it.next() {
            Some(a) => a,
            None => break,
        };
        proof {
            lemma_value_chars(attr.value, before);
        }
        if str_eq(attr.key, "name") {
            cur.name = attr.value;
        } else if str_eq(attr.key, "version") {
            match num_value(attr.value) {
                Ok(n) => cur.version = n,
                Err(e) => return Err(e),
            }
        }
    }
    Ok(cur)
}


/// Reads the attributes of a `protocol` tag: the new protocol name, starting from `name`.
fn parse_protocol_name<'a>(attrs: &'a str, name: &'a str) -> (r: Result<&'a str, ParseError<'a>>)
    ensures
        match attr_fold(attrs.spec_bytes(), name@, protocol_attr_fn()) {
            Ok(m) => r matches Ok(x) && x@ == m,
            Err(x) => r matches Err(e) && e@ == x,
        },
{
    let mut cur = name;
    let mut it = AttributeIterator::new(attrs);
    loop
        invariant
            attr_fold(it.remaining(), cur@, protocol_attr_fn()) == attr_fold(
                attrs.spec_bytes(),
                name@,
                protocol_attr_fn(),
            ),
        ensures
            attr_fold(attrs.spec_bytes(), name@, protocol_attr_fn()) == Ok::<
                Seq<char>,
                ParseErrorModel,
            >(cur@),
        decreases it.remaining().len(),
    {
        if !it.next_is_quoted() {
            return Err(ParseError::Malformed);
        }
        let ghost before = it.remaining();
        let attr = match it.next() {
            Some(a) => a,
            None => break,
        };
        proof {
            lemma_value_chars(attr.value, before);
        }
        if str_eq(attr.key, "name") {
            cur = attr.value;
        }
    }
    Ok(cur)
}

// ---- the document

/// The state of the reader between two elements: the protocol read so far and the interface,
/// message and enumeration being read.
#[verifier::ext_equal]
pub struct ParseModel {
    pub protocol: ProtocolModel,
    pub cur_interface: Option<InterfaceModel>,
    pub cur_message: Option<MessageModel>,
    pub cur_enum: Option<EnumModel>,
}

/// The state before the first element.
pub open spec fn initial_model() -> ParseModel {
    ParseModel {
        protocol: ProtocolModel { name: Seq::empty(), interfaces: Seq::empty() },
        cur_interface: None,
        cur_message: None,
        cur_enum: None,
    }
}

/// An `entry` tag: its entry joins the enumeration being read.
pub open spec fn entry_tag(s: ParseModel, b: Seq<u8>) -> Result<ParseModel, ParseErrorModel> {
    match attr_fold(b, default_entry(), entry_attr_fn()) {
        Ok(e) => match s.cur_enum {
            Some(en) => Ok(
                ParseModel { cur_enum: Some(EnumModel { entries: en.entries.push(e), ..en }), ..s },
            ),
            None => Err(ParseErrorModel::Malformed),
        },
        Err(x) => Err(x),
    }
}

/// An `arg` tag: its argument joins the message being read.
pub open spec fn arg_tag(s: ParseModel, b: Seq<u8>) -> Result<ParseModel, ParseErrorModel> {
    match attr_fold(b, default_arg(), arg_attr_fn()) {
        Ok(a) => match s.cur_message {
            Some(m) => Ok(
                ParseModel { cur_message: Some(MessageModel { args: m.args.push(a), ..m }), ..s },
            ),
            None => Err(ParseErrorModel::Malformed),
        },
        Err(x) => Err(x),
    }
}

/// An opening tag other than `entry`.
pub open spec fn start_tag(s: ParseModel, name: Seq<char>, b: Seq<u8>) -> Result<ParseModel, ParseErrorModel> {
    if name == "protocol"@ {
        match attr_fold(b, s.protocol.name, protocol_attr_fn()) {
            Ok(n) => Ok(ParseModel { protocol: ProtocolModel { name: n, ..s.protocol }, ..s }),
            Err(x) => Err(x),
        }
    } else if name == "interface"@ {
        if s.cur_interface is Some {
            Err(ParseErrorModel::Malformed)
        } else {
            match attr_fold(b, default_interface(), interface_attr_fn()) {
                Ok(i) => Ok(ParseModel { cur_interface: Some(i), ..s }),
                Err(x) => Err(x),
            }
        }
    } else if name == "request"@ || name == "event"@ {
        if s.cur_message is Some {
            Err(ParseErrorModel::Malformed)
        } else {
            match attr_fold(b, default_message(), message_attr_fn()) {
                Ok(m) => Ok(ParseModel { cur_message: Some(m), ..s }),
                Err(x) => Err(x),
            }
        }
    } else if name == "enum"@ {
        if s.cur_enum is Some {
            Err(ParseErrorModel::Malformed)
        } else {
            match attr_fold(b, default_enum(), enum_attr_fn()) {
                Ok(e) => Ok(ParseModel { cur_enum: Some(e), ..s }),
                Err(x) => Err(x),
            }
        }
    } else {
        Ok(s)
    }
}

/// A closing tag: a finished interface joins the protocol; a finished request, event or
/// enumeration joins the interface being read.
pub open spec fn end_tag(s: ParseModel, name: Seq<char>) -> Result<ParseModel, ParseErrorModel> {
    if name == "interface"@ {
        match s.cur_interface {
            Some(i) => Ok(
                ParseModel {
                    protocol: ProtocolModel {
                        interfaces: s.protocol.interfaces.push(i),
                        ..s.protocol
                    },
                    cur_interface: None,
                    ..s
                },
            ),
            None => Err(ParseErrorModel::Malformed),
        }
    } else if name == "request"@ {
        match (s.cur_interface, s.cur_message) {
            (Some(i), Some(m)) => Ok(
                ParseModel {
                    cur_interface: Some(InterfaceModel { requests: i.requests.push(m), ..i }),
                    cur_message: None,
                    ..s
                },
            ),
            _ => Err(ParseErrorModel::Malformed),
        }
    } else if name == "event"@ {
        match (s.cur_interface, s.cur_message) {
            (Some(i), Some(m)) => Ok(
                ParseModel {
                    cur_interface: Some(InterfaceModel { events: i.events.push(m), ..i }),
                    cur_message: None,
                    ..s
                },
            ),
            _ => Err(ParseErrorModel::Malformed),
        }
    } else if name == "enum"@ {
        match (s.cur_interface, s.cur_enum) {
            (Some(i), Some(e)) => Ok(
                ParseModel {
                    cur_interface: Some(InterfaceModel { enums: i.enums.push(e), ..i }),
                    cur_enum: None,
                    ..s
                },
            ),
            _ => Err(ParseErrorModel::Malformed),
        }
    } else {
        Ok(s)
    }
}

/// What one element does to the reader's state.
pub open spec fn apply_element(s: ParseModel, e: ElementModel) -> Result<ParseModel, ParseErrorModel> {
    match e {
        ElementModel::StartTag { name, attrs } => if name == "entry"@ {
            entry_tag(s, encode_utf8(attrs))
        } else {
            start_tag(s, name, encode_utf8(attrs))
        },
        ElementModel::EmptyTag { name, attrs } => if name == "entry"@ {
            entry_tag(s, encode_utf8(attrs))
        } else if name == "arg"@ {
            arg_tag(s, encode_utf8(attrs))
        } else {
            Ok(s)
        },
        ElementModel::EndTag { name } => end_tag(s, name),
        _ => Ok(s),
    }
}

/// Reading the elements of `b` from state `s`: the protocol once the elements run out, or the
/// first error.
pub open spec fn parse_spec(b: Seq<u8>, s: ParseModel) -> Result<ProtocolModel, ParseErrorModel>
    decreases b.len(),
{
    match lex_step(b) {
        None => Ok(s.protocol),
        Some(step) => if step.1.len() < b.len() {
            match apply_element(s, step.0) {
                Ok(s2) => parse_spec(step.1, s2),
                Err(x) => Err(x),
            }
        } else {
            Ok(s.protocol)
        },
    }
}

/// The bytes the reader starts from: the input without its XML declaration.
pub open spec fn document_bytes(input: Seq<char>) -> Seq<u8> {
    encode_utf8(
        match stripped_decl(input) {
            Some(t) => t,
            None => input,
        },
    )
}

struct ParseState<'a> {
    protocol: Protocol<'a>,
    cur_interface: Option<Interface<'a>>,
    cur_message: Option<Message<'a>>,
    cur_enum: Option<Enum<'a>>,
}

impl<'a> View for ParseState<'a> {
    type V = ParseModel;

    closed spec fn view(&self) -> ParseModel {
        ParseModel {
            protocol: self.protocol@,
            cur_interface: match self.cur_interface {
                Some(i) => Some(i@),
                None => None,
            },
            cur_message: match self.cur_message {
                Some(m) => Some(m@),
                None => None,
            },
            cur_enum: match self.cur_enum {
                Some(e) => Some(e@),
                None => None,
            },
        }
    }
}

impl<'a> ParseState<'a> {
    fn entry_tag(&mut self, attrs: &'a str) -> (r: Result<(), ParseError<'a>>)
        ensures
            match entry_tag(old(self)@, attrs.spec_bytes()) {
                Ok(m) => r is Ok && final(self)@ == m,
                Err(x) => r matches Err(e) && e@ == x,
            },
    {
        let entry = match parse_entry(attrs) {
            Ok(e) => e,
            Err(e) => return Err(e),
        };
        match self.cur_enum.take() {
            Some(mut en) => {
                let ghost before = en.entries@;
                en.entries.push(entry);
                proof {
                    assert(en.entries@.map_values(|e: Entry<'a>| e@) =~= before.map_values(
                        |e: Entry<'a>| e@,
                    ).push(entry@));
                }
                self.cur_enum = Some(en);
                proof {
                    assert(self@ =~= entry_tag(old(self)@, attrs.spec_bytes())->Ok_0);
                }
                Ok(())
            },
            None => Err(ParseError::Malformed),
        }
    }

    fn arg_tag(&mut self, attrs: &'a str) -> (r: Result<(), ParseError<'a>>)
        ensures
            match arg_tag(old(self)@, attrs.spec_bytes()) {
                Ok(m) => r is Ok && final(self)@ == m,
                Err(x) => r matches Err(e) && e@ == x,
            },
    {
        let arg = match parse_arg(attrs) {
            Ok(a) => a,
            Err(e) => return Err(e),
        };
        match self.cur_message.take() {
            Some(mut m) => {
                let ghost before = m.args@;
                m.args.push(arg);
                proof {
                    assert(m.args@.map_values(|a: Arg<'a>| a@) =~= before.map_values(
                        |a: Arg<'a>| a@,
                    ).push(arg@));
                }
                self.cur_message = Some(m);
                proof {
                    assert(self@ =~= arg_tag(old(self)@, attrs.spec_bytes())->Ok_0);
                }
                Ok(())
            },
            None => Err(ParseError::Malformed),
        }
    }

    fn start_tag(&mut self, name: &'a str, attrs: &'a str) -> (r: Result<(), ParseError<'a>>)
        ensures
            match start_tag(old(self)@, name@, attrs.spec_bytes()) {
                Ok(m) => r is Ok && final(self)@ == m,
                Err(x) => r matches Err(e) && e@ == x,
            },
    {
        if str_eq(name, "protocol") {
            match parse_protocol_name(attrs, self.protocol.name) {
                Ok(n) => {
                    self.protocol.name = n;
                    proof {
                        assert(self@ =~= start_tag(old(self)@, name@, attrs.spec_bytes())->Ok_0);
                    }
                    Ok(())
                },
                Err(e) => Err(e),
            }
        } else if str_eq(name, "interface") {
            if self.cur_interface.is_some() {
                return Err(ParseError::Malformed);
            }
            match parse_interface(attrs) {
                Ok(i) => {
                    self.cur_interface = Some(i);
                    proof {
                        assert(self@ =~= start_tag(old(self)@, name@, attrs.spec_bytes())->Ok_0);
                    }
                    Ok(())
                },
                Err(e) => Err(e),
            }
        } else if str_eq(name, "request") || str_eq(name, "event") {
            if self.cur_message.is_some() {
                return Err(ParseError::Malformed);
            }
            match parse_message(attrs) {
                Ok(m) => {
                    self.cur_message = Some(m);
                    proof {
                        assert(self@ =~= start_tag(old(self)@, name@, attrs.spec_bytes())->Ok_0);
                    }
                    Ok(())
                },
                Err(e) => Err(e),
            }
        } else if str_eq(name, "enum") {
            if self.cur_enum.is_some() {
                return Err(ParseError::Malformed);
            }
            match parse_enum(attrs) {
                Ok(e) => {
                    self.cur_enum = Some(e);
                    proof {
                        assert(self@ =~= start_tag(old(self)@, name@, attrs.spec_bytes())->Ok_0);
                    }
                    Ok(())
                },
                Err(e) => Err(e),
            }
        } else {
            Ok(())
        }
    }

    fn end_tag(&mut self, name: &'a str) -> (r: Result<(), ParseError<'a>>)
        ensures
            match end_tag(old(self)@, name@) {
                Ok(m) => r is Ok && final(self)@ == m,
                Err(x) => r matches Err(e) && e@ == x,
            },
    {
        if str_eq(name, "interface") {
            match self.cur_interface.take() {
                Some(i) => {
                    let ghost before = self.protocol.interfaces@;
                    let ghost iv = i@;
                    self.protocol.interfaces.push(i);
                    proof {
                        assert(self.protocol.interfaces@.map_values(|x: Interface<'a>| x@)
                            =~= before.map_values(|x: Interface<'a>| x@).push(iv));
                        assert(self@ =~= end_tag(old(self)@, name@)->Ok_0);
                    }
                    Ok(())
                },
                None => Err(ParseError::Malformed),
            }
        } else if str_eq(name, "request") || str_eq(name, "event") {
            let is_request = str_eq(name, "request");
            if self.cur_interface.is_none() || self.cur_message.is_none() {
                return Err(ParseError::Malformed);
            }
            let m = match self.cur_message.take() {
                Some(m) => m,
                None => return Err(ParseError::Malformed),
            };
            let mut i = match self.cur_interface.take() {
                Some(i) => i,
                None => return Err(ParseError::Malformed),
            };
            let ghost mv = m@;
            if is_request {
                let ghost before = i.requests@;
                i.requests.push(m);
                proof {
                    assert(i.requests@.map_values(|x: Message<'a>| x@) =~= before.map_values(
                        |x: Message<'a>| x@,
                    ).push(mv));
                }
            } else {
                let ghost before = i.events@;
                i.events.push(m);
                proof {
                    assert(i.events@.map_values(|x: Message<'a>| x@) =~= before.map_values(
                        |x: Message<'a>| x@,
                    ).push(mv));
                }
            }
            self.cur_interface = Some(i);
            proof {
                assert(self@ =~= end_tag(old(self)@, name@)->Ok_0);
            }
            Ok(())
        } else if str_eq(name, "enum") {
            if self.cur_interface.is_none() || self.cur_enum.is_none() {
                return Err(ParseError::Malformed);
            }
            let e = match self.cur_enum.take() {
                Some(e) => e,
                None => return Err(ParseError::Malformed),
            };
            let mut i = match self.cur_interface.take() {
                Some(i) => i,
                None => return Err(ParseError::Malformed),
            };
            let ghost ev = e@;
            let ghost before = i.enums@;
            i.enums.push(e);
            proof {
                assert(i.enums@.map_values(|x: Enum<'a>| x@) =~= before.map_values(|x: Enum<'a>| x@).push(
                    ev,
                ));
            }
            self.cur_interface = Some(i);
            proof {
                assert(self@ =~= end_tag(old(self)@, name@)->Ok_0);
            }
            Ok(())
        } else {
            Ok(())
        }
    }

    fn apply(&mut self, element: Element<'a>) -> (r: Result<(), ParseError<'a>>)
        ensures
            match apply_element(old(self)@, element@) {
                Ok(m) => r is Ok && final(self)@ == m,
                Err(x) => r matches Err(e) && e@ == x,
            },
    {
        match element {
            Element::StartTag(e) => {
                if str_eq(e.name, "entry") {
                    self.entry_tag(e.attrs)
                } else {
                    self.start_tag(e.name, e.attrs)
                }
            },
            Element::EmptyTag(e) => {
                if str_eq(e.name, "entry") {
                    self.entry_tag(e.attrs)
                } else if str_eq(e.name, "arg") {
                    self.arg_tag(e.attrs)
                } else {
                    Ok(())
                }
            },
            Element::EndTag(e) => self.end_tag(e.name),
            _ => Ok(()),
        }
    }
}

/// The description is structured as the protocol format requires: every element sits in the
/// element it belongs to and every attribute value is quoted.
pub open spec fn well_structured(input: Seq<char>) -> bool {
    !(parse_spec(document_bytes(input), initial_model()) matches Err(ParseErrorModel::Malformed))
}

/// Reads a wayland protocol description: the protocol name, and each interface with its
/// requests, events and enumerations. Reading stops at the end of the input or at the first
/// element that is not complete. The description must be well structured (see
/// [`is_well_structured`]); a number or an argument type that cannot be read is an error.
pub fn parse_protocol<'a>(input: &'a str) -> (r: Result<Protocol<'a>, ParseError<'a>>)
    requires
        well_structured(input@),
    ensures
        match parse_spec(document_bytes(input@), initial_model()) {
            Ok(p) => r matches Ok(x) && x@ == p,
            Err(x) => r matches Err(e) && e@ == x,
        },
{
    parse_document(input)
}

/// Whether the description is well structured, which [`parse_protocol`] requires.
pub fn is_well_structured(input: &str) -> (r: bool)
    ensures
        r == well_structured(input@),
{
    match parse_document(input) {
        Err(ParseError::Malformed) => false,
        _ => true,
    }
}

/// Reads a protocol description; a description that is not well structured is
/// [`ParseError::Malformed`].
fn parse_document<'a>(input: &'a str) -> (r: Result<Protocol<'a>, ParseError<'a>>)
    ensures
        match parse_spec(document_bytes(input@), initial_model()) {
            Ok(p) => r matches Ok(x) && x@ == p,
            Err(x) => r matches Err(e) && e@ == x,
        },
{
    let mut element_iterator = ElementIterator::new(input);
    let mut state = ParseState {
        protocol: Protocol { name: lit_empty(), interfaces: Vec::new() },
        cur_interface: None,
        cur_message: None,
        cur_enum: None,
    };
    assert(state@ =~= initial_model());
    loop
        invariant
            parse_spec(element_iterator.remaining_bytes(), state@) == parse_spec(
                document_bytes(input@),
                initial_model(),
            ),
        ensures
            parse_spec(document_bytes(input@), initial_model()) == Ok::<
                ProtocolModel,
                ParseErrorModel,
            >(state.protocol@),
        decreases element_iterator.remaining_bytes().len(),
    {
        let element = match element_iterator.next() {
            Some(e) => e,
            None => break,
        };
        match state.apply(element) {
            Ok(()) => {},
            Err(e) => return Err(e),
        }
    }
    Ok(state.protocol)
}

} // verus!
