//! Generates the Rust source of bindings for a wayland protocol: listener structs, message
//! tables, interface descriptions, enum constants, opcodes and request stubs.
//!
//! Every emitter appends to an output string, and its contract gives the appended text as a
//! spec function of the protocol model.
use crate::wayland_scanner::protocol::{
    Arg, ArgModel, ArgType, Enum, EnumModel, Interface, InterfaceModel,
    Message, MessageModel, Protocol, ProtocolModel,
};
use crate::wayland_scanner::text::{decimal, push_decimal, push_str};
use crate::xml_iterator::str_eq;
use vstd::prelude::*;
use vstd::string::*;

verus! {

broadcast use vstd::string::group_string_axioms;

// ---- assembling text

/// `f(0) + f(1) + ... + f(n - 1)`.
pub open spec fn concat_upto(n: int, f: spec_fn(int) -> Seq<char>) -> Seq<char>
    decreases n,
{
    if n <= 0 {
        Seq::empty()
    } else {
        concat_upto(n - 1, f) + f(n - 1)
    }
}

proof fn lemma_concat_upto_step(n: int, f: spec_fn(int) -> Seq<char>)
    requires
        n >= 0,
    ensures
        concat_upto(n + 1, f) == concat_upto(n, f) + f(n),
{
}

/// The upper-case form of a text, as `str::to_uppercase` computes it.
pub uninterp spec fn uppercase(s: Seq<char>) -> Seq<char>;

/// Trusted: calls `str::to_uppercase`, whose result depends on the text alone; it is named
/// [`uppercase`] and nothing more is stated of it.
#[verifier::external_body]
fn to_uppercase(s: &str) -> (r: String)
    ensures
        r@ == uppercase(s@),
{
    s.to_uppercase()
}

// ---- argument types

/// `string` and `object` arguments may be null.
pub open spec fn nullable(t: ArgType) -> bool {
    t == ArgType::String || t == ArgType::Object
}

pub fn is_arg_type_nullable(arg_type: ArgType) -> (r: bool)
    ensures
        r == nullable(arg_type),
{
    arg_type == ArgType::String || arg_type == ArgType::Object
}

/// The signature code of an argument (see `wl_message`).
pub open spec fn arg_signature(a: ArgModel) -> Seq<char> {
    (if nullable(a.arg_type) && a.allow_null {
        "?"@
    } else {
        Seq::empty()
    }) + match a.arg_type {
        ArgType::Int => "i"@,
        ArgType::Uint => "u"@,
        ArgType::Fixed => "f"@,
        ArgType::String => "s"@,
        ArgType::Object => "o"@,
        ArgType::Array => "a"@,
        ArgType::NewId => (if a.interface is None {
            "su"@
        } else {
            Seq::empty()
        }) + "n"@,
        ArgType::Fd => "h"@,
    }
}

/// An argument's signature code ends in a character that tells its type apart from every
/// other type, and starts with `?` exactly for a string or an object that may be null.
pub proof fn law_arg_signature_codes(a: ArgModel, b: ArgModel)
    ensures
        arg_signature(a).len() >= 1,
        a.arg_type != b.arg_type ==> arg_signature(a).last() != arg_signature(b).last(),
        arg_signature(a)[0] == '?' <==> nullable(a.arg_type) && a.allow_null,
{
    reveal_strlit("?");
    reveal_strlit("i");
    reveal_strlit("u");
    reveal_strlit("f");
    reveal_strlit("s");
    reveal_strlit("o");
    reveal_strlit("a");
    reveal_strlit("su");
    reveal_strlit("n");
    reveal_strlit("h");
}

/// The signature of a message: the version it appeared in when above 1, then the codes of
/// its arguments.
pub open spec fn message_signature(m: MessageModel) -> Seq<char> {
    (if m.since matches Some(s) && s > 1 {
        decimal(m.since->0 as nat)
    } else {
        Seq::empty()
    }) + concat_upto(m.args.len() as int, |k: int| arg_signature(m.args[k]))
}

pub fn emit_message_signature(out: &mut String, msg: &Message)
    ensures
        final(out)@ == old(out)@ + message_signature(msg@),
{
    let ghost start = out@;
    if let Some(since) = msg.since {
        if since > 1 {
            push_decimal(out, since as u64);
        }
    }
    let ghost head = out@;
    let ghost f = |k: int| arg_signature(msg@.args[k]);
    let mut k: usize = 0;
    while k < msg.args.len()
        invariant
            k <= msg.args@.len(),
            msg@.args.len() == msg.args@.len(),
            f == (|k: int| arg_signature(msg@.args[k])),
            out@ == head + concat_upto(k as int, f),
        decreases msg.args@.len() - k,
    {
        let arg = &msg.args[k];
        assert(arg@ == msg@.args[k as int]);
        proof {
            lemma_concat_upto_step(k as int, f);
        }
        if is_arg_type_nullable(arg.arg_type) && arg.allow_null {
            push_str(out, "?");
        }
        match arg.arg_type {
            ArgType::Int => push_str(out, "i"),
            ArgType::Uint => push_str(out, "u"),
            ArgType::Fixed => push_str(out, "f"),
            ArgType::String => push_str(out, "s"),
            ArgType::Object => push_str(out, "o"),
            ArgType::Array => push_str(out, "a"),
            ArgType::NewId => {
                if arg.interface.is_none() {
                    push_str(out, "su");
                }
                push_str(out, "n");
            },
            ArgType::Fd => push_str(out, "h"),
        }
        k = k + 1;
    }
}


/// The Rust type of an argument in a request stub. An `object` argument must name its
/// interface.
pub open spec fn arg_rust_type(a: ArgModel) -> Seq<char> {
    match a.arg_type {
        ArgType::Int | ArgType::Fd => "i32"@,
        ArgType::NewId | ArgType::Uint => "u32"@,
        ArgType::Fixed => "super::wl_fixed"@,
        ArgType::String => "*const std::ffi::c_char"@,
        ArgType::Object => "*mut "@ + a.interface->0,
        ArgType::Array => "*mut super::wl_array"@,
    }
}

/// An `object` argument names its interface.
pub open spec fn object_typed(a: ArgModel) -> bool {
    a.arg_type == ArgType::Object ==> a.interface is Some
}

pub fn emit_arg_type(out: &mut String, arg: &Arg)
    requires
        object_typed(arg@),
    ensures
        final(out)@ == old(out)@ + arg_rust_type(arg@),
{
    match arg.arg_type {
        ArgType::Int | ArgType::Fd => push_str(out, "i32"),
        ArgType::NewId | ArgType::Uint => push_str(out, "u32"),
        ArgType::Fixed => push_str(out, "super::wl_fixed"),
        ArgType::String => push_str(out, "*const std::ffi::c_char"),
        ArgType::Object => {
            push_str(out, "*mut ");
            match arg.interface {
                Some(name) => push_str(out, name),
                None => unreached(),
            }
        },
        ArgType::Array => push_str(out, "*mut super::wl_array"),
    }
}

/// Which messages of an interface an emitter works on.
#[derive(Debug, Clone, Copy, PartialEq, Eq, Structural)]
pub enum MessageKind {
    Request,
    Event,
}

/// The requests or the events of an interface.
pub open spec fn messages_of(i: InterfaceModel, kind: MessageKind) -> Seq<MessageModel> {
    match kind {
        MessageKind::Request => i.requests,
        MessageKind::Event => i.events,
    }
}

pub(crate) fn messages<'b, 'a>(interface: &'b Interface<'a>, kind: MessageKind) -> (r: &'b Vec<Message<'a>>)
    ensures
        r@.map_values(|m: Message<'a>| m@) == messages_of(interface@, kind),
{
    match kind {
        MessageKind::Request => &interface.requests,
        MessageKind::Event => &interface.events,
    }
}

/// A message name as a Rust field name: the keyword `type` becomes `r#type`.
pub open spec fn field_name(name: Seq<char>) -> Seq<char> {
    if name == "type"@ {
        "r#type"@
    } else {
        name
    }
}

pub fn normalize_message_name<'a>(name: &'a str) -> (r: &'a str)
    ensures
        r@ == field_name(name@),
{
    if str_eq(name, "type") {
        "r#type"
    } else {
        name
    }
}

/// The Rust type of an event argument in a listener: an untyped object is a void pointer, a
/// new object is a pointer to its interface.
pub open spec fn listener_arg_type(a: ArgModel) -> Seq<char> {
    if a.arg_type == ArgType::Object && a.interface is None {
        "*mut std::ffi::c_void"@
    } else if a.arg_type == ArgType::NewId {
        "*mut "@ + a.interface->0
    } else {
        arg_rust_type(a)
    }
}

/// In a listener an argument has the Rust type it has in a request stub, except that a new
/// object is a pointer to its interface and an object that names no interface is a void
/// pointer: an object or new object that names its interface is a pointer to that interface.
pub proof fn law_listener_arg_types(a: ArgModel)
    ensures
        a.arg_type != ArgType::NewId && object_typed(a) ==> listener_arg_type(a) == arg_rust_type(a),
        (a.arg_type == ArgType::Object || a.arg_type == ArgType::NewId) && a.interface is Some
            ==> listener_arg_type(a) == "*mut "@ + a.interface->0,
        a.arg_type == ArgType::Object && a.interface is None ==> listener_arg_type(a)
            == "*mut std::ffi::c_void"@,
{
}

/// A `new_id` argument names its interface.
pub open spec fn new_id_typed(a: ArgModel) -> bool {
    a.arg_type == ArgType::NewId ==> a.interface is Some
}

/// The listener field of a message: a callback taking user data, the proxy and the
/// arguments.
pub open spec fn listener_field(iname: Seq<char>, m: MessageModel, name: Seq<char>) -> Seq<char> {
    "    pub "@ + name + ": unsafe extern \"C\" fn(\n"@ + "        data: *mut std::ffi::c_void,\n"@
        + "        "@ + iname + ": *mut "@ + iname + ",\n"@ + concat_upto(
        m.args.len() as int,
        |k: int| "        "@ + m.args[k].name + ": "@ + listener_arg_type(m.args[k]) + ",\n"@,
    ) + "    ),\n"@
}

/// The opaque proxy struct of an interface.
pub open spec fn proxy_struct(iname: Seq<char>) -> Seq<char> {
    "#[repr(C)]\n"@ + "pub struct "@ + iname + " {\n"@ + "    _data: [u8; 0],\n"@
        + "    _marker: std::marker::PhantomData<(*mut u8, std::marker::PhantomPinned)>,\n"@
        + "}\n\n"@
}

/// The proxy struct of an interface and, when it has messages of `kind`, its listener struct
/// whose fields are named by `name_of`.
#[verifier::opaque]
pub open spec fn structs_text(
    i: InterfaceModel,
    kind: MessageKind,
    name_of: spec_fn(Seq<char>) -> Seq<char>,
) -> Seq<char> {
    let msgs = messages_of(i, kind);
    proxy_struct(i.name) + if msgs.len() == 0 {
        Seq::empty()
    } else {
        "pub struct "@ + i.name + "_listener {\n"@ + concat_upto(
            msgs.len() as int,
            |k: int| listener_field(i.name, msgs[k], name_of(msgs[k].name)),
        ) + "}\n\n"@
    }
}

/// Every argument of every message of `kind` can be typed in a listener.
pub open spec fn listener_typed(i: InterfaceModel, kind: MessageKind) -> bool {
    forall|k: int, j: int|
        0 <= k < messages_of(i, kind).len() && 0 <= j < messages_of(i, kind)[k].args.len()
            ==> new_id_typed(#[trigger] messages_of(i, kind)[k].args[j])
}

pub(crate) fn emit_proxy_struct(out: &mut String, interface: &Interface)
    ensures
        final(out)@ == old(out)@ + proxy_struct(interface@.name),
{
    push_str(out, "#[repr(C)]\n");
    push_str(out, "pub struct ");
    push_str(out, interface.name);
    push_str(out, " {\n");
    push_str(out, "    _data: [u8; 0],\n");
    push_str(out, "    _marker: std::marker::PhantomData<(*mut u8, std::marker::PhantomPinned)>,\n");
    push_str(out, "}\n\n");
}

/// Appends the listener field of `msg`, named `name`.
pub(crate) fn emit_listener_field(out: &mut String, interface: &Interface, msg: &Message, name: &str)
    requires
        forall|j: int| 0 <= j < msg@.args.len() ==> new_id_typed(#[trigger] msg@.args[j]),
    ensures
        final(out)@ == old(out)@ + listener_field(interface@.name, msg@, name@),
{
    let ghost start = out@;
    push_str(out, "    pub ");
    push_str(out, name);
    push_str(out, ": unsafe extern \"C\" fn(\n");
    push_str(out, "        data: *mut std::ffi::c_void,\n");
    push_str(out, "        ");
    push_str(out, interface.name);
    push_str(out, ": *mut ");
    push_str(out, interface.name);
    push_str(out, ",\n");
    let ghost head = out@;
    let ghost f = |k: int| "        "@ + msg@.args[k].name + ": "@ + listener_arg_type(msg@.args[k]) + ",\n"@;
    let mut k: usize = 0;
    while k < msg.args.len()
        invariant
            k <= msg.args@.len(),
            msg@.args.len() == msg.args@.len(),
            forall|j: int| 0 <= j < msg@.args.len() ==> new_id_typed(#[trigger] msg@.args[j]),
            f == (|k: int| "        "@ + msg@.args[k].name + ": "@ + listener_arg_type(msg@.args[k]) + ",\n"@),
            out@ == head + concat_upto(k as int, f),
        decreases msg.args@.len() - k,
    {
        let arg = &msg.args[k];
        assert(arg@ == msg@.args[k as int]);
        proof {
            lemma_concat_upto_step(k as int, f);
        }
        push_str(out, "        ");
        push_str(out, arg.name);
        push_str(out, ": ");
        if arg.arg_type == ArgType::Object && arg.interface.is_none() {
            push_str(out, "*mut std::ffi::c_void");
        } else if arg.arg_type == ArgType::NewId {
            push_str(out, "*mut ");
            match arg.interface {
                Some(name) => push_str(out, name),
                None => unreached(),
            }
        } else {
            emit_arg_type(out, arg);
        }
        push_str(out, ",\n");
        k = k + 1;
    }
    push_str(out, "    ),\n");
}

/// Appends the proxy struct of `interface` and the listener struct of its messages of
/// `kind`; fields of messages named `type` are written `r#type`.
pub fn emit_structs(out: &mut String, interface: &Interface, kind: MessageKind)
    requires
        listener_typed(interface@, kind),
    ensures
        final(out)@ == old(out)@ + structs_text(interface@, kind, |n: Seq<char>| field_name(n)),
{
    proof {
        reveal(structs_text);
    }
    let ghost start = out@;
    emit_proxy_struct(out, interface);
    let msgs = messages(interface, kind);
    let ghost ms = messages_of(interface@, kind);
    let ghost name_of = |n: Seq<char>| field_name(n);
    if msgs.len() == 0 {
        assert(out@ =~= start + structs_text(interface@, kind, name_of));
        return;
    }
    let ghost head0 = out@;
    push_str(out, "pub struct ");
    push_str(out, interface.name);
    push_str(out, "_listener {\n");
    let ghost head = out@;
    let ghost f = |k: int| listener_field(interface@.name, ms[k], name_of(ms[k].name));
    let mut k: usize = 0;
    while k < msgs.len()
        invariant
            k <= msgs@.len(),
            ms == msgs@.map_values(|m: Message| m@),
            ms == messages_of(interface@, kind),
            listener_typed(interface@, kind),
            f == (|k: int| listener_field(interface@.name, ms[k], name_of(ms[k].name))),
            name_of == (|n: Seq<char>| field_name(n)),
            out@ == head + concat_upto(k as int, f),
        decreases msgs@.len() - k,
    {
        let msg = &msgs[k];
        assert(msg@ == ms[k as int]);
        proof {
            lemma_concat_upto_step(k as int, f);
            assert forall|j: int| 0 <= j < msg@.args.len() implies new_id_typed(#[trigger] msg@.args[j]) by {
                assert(new_id_typed(messages_of(interface@, kind)[k as int].args[j]));
            }
        }
        let name = normalize_message_name(msg.name);
        emit_listener_field(out, interface, msg, name);
        k = k + 1;
    }
    push_str(out, "}\n\n");
    assert(out@ =~= start + structs_text(interface@, kind, name_of));
}


// ---- message tables

/// The entry of an argument in a message's `types` table: the interface of a typed object or
/// new object, else null; indented by `indent`.
pub open spec fn type_entry(a: ArgModel, indent: Seq<char>) -> Seq<char> {
    if (a.arg_type == ArgType::NewId || a.arg_type == ArgType::Object) && a.interface is Some {
        indent + "&"@ + a.interface->0 + "_interface as *const super::wl_interface,\n"@
    } else {
        indent + "std::ptr::null(),\n"@
    }
}

/// The entries of all arguments of `m` in its `types` table.
pub open spec fn type_entries(m: MessageModel, indent: Seq<char>) -> Seq<char> {
    concat_upto(m.args.len() as int, |k: int| type_entry(m.args[k], indent))
}

/// Appends the `types` table entries of the arguments of `msg`, indented by `indent`.
pub(crate) fn emit_type_entries(out: &mut String, msg: &Message, indent: &str)
    ensures
        final(out)@ == old(out)@ + type_entries(msg@, indent@),
{
    let ghost head = out@;
    let ghost f = |k: int| type_entry(msg@.args[k], indent@);
    let mut k: usize = 0;
    while k < msg.args.len()
        invariant
            k <= msg.args@.len(),
            msg@.args.len() == msg.args@.len(),
            f == (|k: int| type_entry(msg@.args[k], indent@)),
            out@ == head + concat_upto(k as int, f),
        decreases msg.args@.len() - k,
    {
        let arg = &msg.args[k];
        assert(arg@ == msg@.args[k as int]);
        proof {
            lemma_concat_upto_step(k as int, f);
        }
        push_str(out, indent);
        match arg.interface {
            Some(name) if arg.arg_type == ArgType::NewId || arg.arg_type == ArgType::Object => {
                push_str(out, "&");
                push_str(out, name);
                push_str(out, "_interface as *const super::wl_interface,\n");
            },
            _ => push_str(out, "std::ptr::null(),\n"),
        }
        k = k + 1;
    }
}

/// The static `types` table of a message.
pub open spec fn types_table(iname: Seq<char>, m: MessageModel) -> Seq<char> {
    "static "@ + iname + "_"@ + m.name + "_types: SyncWrapper<[*const super::wl_interface; "@
        + decimal(m.args.len()) + "]> = SyncWrapper([\n"@ + type_entries(m, "    "@) + "]);\n\n"@
}

/// The `wl_message` entry of a message, given the text of its `types` field.
pub open spec fn message_entry(m: MessageModel, types: Seq<char>) -> Seq<char> {
    "    super::wl_message {\n"@ + "        name: c\""@ + m.name + "\".as_ptr(),\n"@
        + "        signature: c\""@ + message_signature(m) + "\".as_ptr(),\n"@ + types
        + "    },\n"@
}

/// The `wl_message` entry of a message whose `types` point into its static `types` table.
pub open spec fn table_message_entry(iname: Seq<char>, m: MessageModel) -> Seq<char> {
    message_entry(m, "        types: "@ + iname + "_"@ + m.name + "_types.0.as_ptr(),\n"@)
}

/// The name of the message table of `kind`.
pub open spec fn kind_name(kind: MessageKind) -> Seq<char> {
    match kind {
        MessageKind::Request => "requests"@,
        MessageKind::Event => "events"@,
    }
}

/// The opening of the message table of `kind`.
pub open spec fn message_table_head(i: InterfaceModel, kind: MessageKind) -> Seq<char> {
    "static "@ + i.name + "_"@ + kind_name(kind) + ": [super::wl_message; "@ + decimal(
        messages_of(i, kind).len(),
    ) + "] = [\n"@
}

/// The static `types` tables of the messages of `kind`.
#[verifier::opaque]
pub open spec fn types_tables(i: InterfaceModel, kind: MessageKind) -> Seq<char> {
    concat_upto(messages_of(i, kind).len() as int, |k: int| types_table(i.name, messages_of(i, kind)[k]))
}

/// The entries of the message table of `kind`.
#[verifier::opaque]
pub open spec fn table_entries(i: InterfaceModel, kind: MessageKind) -> Seq<char> {
    concat_upto(
        messages_of(i, kind).len() as int,
        |k: int| table_message_entry(i.name, messages_of(i, kind)[k]),
    )
}

/// The `types` tables of the messages of `kind` and their message table, whose entries point
/// into the `types` tables; nothing when there are no such messages.
#[verifier::opaque]
pub open spec fn messages_text(i: InterfaceModel, kind: MessageKind) -> Seq<char> {
    if messages_of(i, kind).len() == 0 {
        Seq::empty()
    } else {
        types_tables(i, kind) + message_table_head(i, kind) + table_entries(i, kind) + "];\n\n"@
    }
}

fn emit_kind_name(out: &mut String, kind: MessageKind)
    ensures
        final(out)@ == old(out)@ + kind_name(kind),
{
    match kind {
        MessageKind::Request => push_str(out, "requests"),
        MessageKind::Event => push_str(out, "events"),
    }
}

/// Appends the start of the `wl_message` entry of `msg`: its name and signature.
pub(crate) fn emit_message_entry_head(out: &mut String, msg: &Message)
    ensures
        final(out)@ == old(out)@ + "    super::wl_message {\n"@ + "        name: c\""@ + msg@.name
            + "\".as_ptr(),\n"@ + "        signature: c\""@ + message_signature(msg@)
            + "\".as_ptr(),\n"@,
{
    push_str(out, "    super::wl_message {\n");
    push_str(out, "        name: c\"");
    push_str(out, msg.name);
    push_str(out, "\".as_ptr(),\n");
    push_str(out, "        signature: c\"");
    emit_message_signature(out, msg);
    push_str(out, "\".as_ptr(),\n");
}

fn emit_table_message_entry(out: &mut String, interface: &Interface, msg: &Message)
    ensures
        final(out)@ == old(out)@ + table_message_entry(interface@.name, msg@),
{
    let ghost start = out@;
    emit_message_entry_head(out, msg);
    push_str(out, "        types: ");
    push_str(out, interface.name);
    push_str(out, "_");
    push_str(out, msg.name);
    push_str(out, "_types.0.as_ptr(),\n");
    push_str(out, "    },\n");
    assert(out@ =~= start + table_message_entry(interface@.name, msg@));
}

fn emit_types_tables(out: &mut String, interface: &Interface, kind: MessageKind)
    ensures
        final(out)@ == old(out)@ + types_tables(interface@, kind),
{
    proof {
        reveal(types_tables);
    }
    let msgs = messages(interface, kind);
    let ghost ms = messages_of(interface@, kind);
    let ghost iname = interface@.name;
    let ghost start = out@;
    let ghost f = |k: int| types_table(iname, ms[k]);
    let mut k: usize = 0;
    while k < msgs.len()
        invariant
            k <= msgs@.len(),
            ms == msgs@.map_values(|m: Message| m@),
            iname == interface@.name,
            f == (|k: int| types_table(iname, ms[k])),
            out@ == start + concat_upto(k as int, f),
        decreases msgs@.len() - k,
    {
        let msg = &msgs[k];
        assert(msg@ == ms[k as int]);
        proof {
            lemma_concat_upto_step(k as int, f);
        }
        let ghost before = out@;
        push_str(out, "static ");
        push_str(out, interface.name);
        push_str(out, "_");
        push_str(out, msg.name);
        push_str(out, "_types: SyncWrapper<[*const super::wl_interface; ");
        push_decimal(out, msg.args.len() as u64);
        push_str(out, "]> = SyncWrapper([\n");
        emit_type_entries(out, msg, "    ");
        push_str(out, "]);\n\n");
        assert(out@ =~= before + types_table(iname, msg@));
        k = k + 1;
    }
}

fn emit_table_entries(out: &mut String, interface: &Interface, kind: MessageKind)
    ensures
        final(out)@ == old(out)@ + table_entries(interface@, kind),
{
    proof {
        reveal(table_entries);
    }
    let msgs = messages(interface, kind);
    let ghost ms = messages_of(interface@, kind);
    let ghost iname = interface@.name;
    let ghost start = out@;
    let ghost g = |k: int| table_message_entry(iname, ms[k]);
    let mut k: usize = 0;
    while k < msgs.len()
        invariant
            k <= msgs@.len(),
            ms == msgs@.map_values(|m: Message| m@),
            iname == interface@.name,
            g == (|k: int| table_message_entry(iname, ms[k])),
            out@ == start + concat_upto(k as int, g),
        decreases msgs@.len() - k,
    {
        let msg = &msgs[k];
        assert(msg@ == ms[k as int]);
        proof {
            lemma_concat_upto_step(k as int, g);
        }
        emit_table_message_entry(out, interface, msg);
        k = k + 1;
    }
}

pub(crate) fn emit_message_table_head(out: &mut String, interface: &Interface, kind: MessageKind)
    ensures
        final(out)@ == old(out)@ + message_table_head(interface@, kind),
{
    let ghost start = out@;
    let msgs = messages(interface, kind);
    push_str(out, "static ");
    push_str(out, interface.name);
    push_str(out, "_");
    emit_kind_name(out, kind);
    push_str(out, ": [super::wl_message; ");
    push_decimal(out, msgs.len() as u64);
    push_str(out, "] = [\n");
    assert(out@ =~= start + message_table_head(interface@, kind));
}

/// Appends the `types` tables and the message table of the messages of `kind`.
pub fn emit_messages(out: &mut String, interface: &Interface, kind: MessageKind)
    ensures
        final(out)@ == old(out)@ + messages_text(interface@, kind),
{
    proof {
        reveal(messages_text);
    }
    let ghost start = out@;
    let msgs = messages(interface, kind);
    if msgs.len() == 0 {
        assert(out@ =~= start + messages_text(interface@, kind));
        return;
    }
    emit_types_tables(out, interface, kind);
    emit_message_table_head(out, interface, kind);
    emit_table_entries(out, interface, kind);
    push_str(out, "];\n\n");
    assert(out@ =~= start + messages_text(interface@, kind));
}


// ---- constants

/// The constant of an enumeration value.
pub open spec fn entry_line(iface_upper: Seq<char>, enum_upper: Seq<char>, entry_upper: Seq<char>, value: u32) -> Seq<char> {
    "pub const "@ + iface_upper + "_"@ + enum_upper + "_"@ + entry_upper + ": u32 = "@ + decimal(
        value as nat,
    ) + ";\n"@
}

/// The constants of an enumeration, followed by an empty line.
pub open spec fn enum_block(iname: Seq<char>, e: EnumModel) -> Seq<char> {
    concat_upto(
        e.entries.len() as int,
        |j: int| entry_line(uppercase(iname), uppercase(e.name), uppercase(e.entries[j].name), e.entries[j].value),
    ) + "\n"@
}

/// The constants of all enumerations of an interface.
#[verifier::opaque]
pub open spec fn enums_text(i: InterfaceModel) -> Seq<char> {
    concat_upto(i.enums.len() as int, |k: int| enum_block(i.name, i.enums[k]))
}

/// Appends the constant of an enumeration value, given the upper-case names of the
/// interface, the enumeration and the value.
pub fn emit_enum_entry(out: &mut String, iface_upper: &str, enum_upper: &str, entry_upper: &str, value: u32)
    ensures
        final(out)@ == old(out)@ + entry_line(iface_upper@, enum_upper@, entry_upper@, value),
{
    push_str(out, "pub const ");
    push_str(out, iface_upper);
    push_str(out, "_");
    push_str(out, enum_upper);
    push_str(out, "_");
    push_str(out, entry_upper);
    push_str(out, ": u32 = ");
    push_decimal(out, value as u64);
    push_str(out, ";\n");
}

fn emit_enum_block(out: &mut String, interface: &Interface, e: &Enum)
    ensures
        final(out)@ == old(out)@ + enum_block(interface@.name, e@),
{
    let iface_upper = to_uppercase(interface.name);
    let enum_upper = to_uppercase(e.name);
    let ghost start = out@;
    let ghost em = e@;
    let ghost iname = interface@.name;
    let ghost f = |j: int| entry_line(uppercase(iname), uppercase(em.name), uppercase(em.entries[j].name), em.entries[j].value);
    let mut j: usize = 0;
    while j < e.entries.len()
        invariant
            j <= e.entries@.len(),
            em == e@,
            em.entries.len() == e.entries@.len(),
            iname == interface@.name,
            iface_upper@ == uppercase(iname),
            enum_upper@ == uppercase(em.name),
            f == (|j: int| entry_line(uppercase(iname), uppercase(em.name), uppercase(em.entries[j].name), em.entries[j].value)),
            out@ == start + concat_upto(j as int, f),
        decreases e.entries@.len() - j,
    {
        let entry = &e.entries[j];
        assert(entry@ == em.entries[j as int]);
        proof {
            lemma_concat_upto_step(j as int, f);
        }
        let entry_upper = to_uppercase(entry.name);
        emit_enum_entry(out, iface_upper.as_str(), enum_upper.as_str(), entry_upper.as_str(), entry.value);
        j = j + 1;
    }
    push_str(out, "\n");
}

/// Appends the constants of all enumerations of `interface`.
pub fn emit_enums(out: &mut String, interface: &Interface)
    ensures
        final(out)@ == old(out)@ + enums_text(interface@),
{
    proof {
        reveal(enums_text);
    }
    let ghost start = out@;
    let ghost im = interface@;
    let ghost f = |k: int| enum_block(im.name, im.enums[k]);
    let mut k: usize = 0;
    while k < interface.enums.len()
        invariant
            k <= interface.enums@.len(),
            im == interface@,
            im.enums.len() == interface.enums@.len(),
            f == (|k: int| enum_block(im.name, im.enums[k])),
            out@ == start + concat_upto(k as int, f),
        decreases interface.enums@.len() - k,
    {
        let e = &interface.enums[k];
        assert(e@ == im.enums[k as int]);
        proof {
            lemma_concat_upto_step(k as int, f);
        }
        emit_enum_block(out, interface, e);
        k = k + 1;
    }
}

/// The opcode constant of the message at position `opcode`.
pub open spec fn opcode_line(iface_upper: Seq<char>, message_upper: Seq<char>, opcode: nat) -> Seq<char> {
    "const "@ + iface_upper + "_"@ + message_upper + ": u32 = "@ + decimal(opcode) + ";\n"@
}

/// The opcode constants of the messages of `kind`, numbered in order from 0, followed by an
/// empty line; nothing when there are no such messages.
#[verifier::opaque]
pub open spec fn opcodes_text(i: InterfaceModel, kind: MessageKind) -> Seq<char> {
    let msgs = messages_of(i, kind);
    if msgs.len() == 0 {
        Seq::empty()
    } else {
        concat_upto(
            msgs.len() as int,
            |k: int| opcode_line(uppercase(i.name), uppercase(msgs[k].name), k as nat),
        ) + "\n"@
    }
}

/// Appends the opcode constant of a message, given the upper-case names of the interface and
/// the message.
pub fn emit_opcode(out: &mut String, iface_upper: &str, message_upper: &str, opcode: usize)
    ensures
        final(out)@ == old(out)@ + opcode_line(iface_upper@, message_upper@, opcode as nat),
{
    push_str(out, "const ");
    push_str(out, iface_upper);
    push_str(out, "_");
    push_str(out, message_upper);
    push_str(out, ": u32 = ");
    push_decimal(out, opcode as u64);
    push_str(out, ";\n");
}

/// Appends the opcode constants of the messages of `kind`.
pub fn emit_opcodes(out: &mut String, interface: &Interface, kind: MessageKind)
    ensures
        final(out)@ == old(out)@ + opcodes_text(interface@, kind),
{
    proof {
        reveal(opcodes_text);
    }
    let ghost start = out@;
    let msgs = messages(interface, kind);
    let ghost ms = messages_of(interface@, kind);
    if msgs.len() == 0 {
        assert(out@ =~= start + opcodes_text(interface@, kind));
        return;
    }
    let iface_upper = to_uppercase(interface.name);
    let ghost iname = interface@.name;
    let ghost f = |k: int| opcode_line(uppercase(iname), uppercase(ms[k].name), k as nat);
    let mut k: usize = 0;
    while k < msgs.len()
        invariant
            k <= msgs@.len(),
            ms == msgs@.map_values(|m: Message| m@),
            iname == interface@.name,
            iface_upper@ == uppercase(iname),
            f == (|k: int| opcode_line(uppercase(iname), uppercase(ms[k].name), k as nat)),
            out@ == start + concat_upto(k as int, f),
        decreases msgs@.len() - k,
    {
        let msg = &msgs[k];
        assert(msg@ == ms[k as int]);
        proof {
            lemma_concat_upto_step(k as int, f);
        }
        let message_upper = to_uppercase(msg.name);
        emit_opcode(out, iface_upper.as_str(), message_upper.as_str(), k);
        k = k + 1;
    }
    push_str(out, "\n");
    assert(out@ =~= start + opcodes_text(interface@, kind));
}


// ---- request stubs

/// The number of `new_id` arguments.
pub open spec fn new_id_count(args: Seq<ArgModel>) -> nat
    decreases args.len(),
{
    if args.len() == 0 {
        0
    } else {
        new_id_count(args.drop_last()) + if args.last().arg_type == ArgType::NewId {
            1nat
        } else {
            0nat
        }
    }
}

/// The first `new_id` argument: the object that a request creates.
pub open spec fn new_id_arg(args: Seq<ArgModel>) -> Option<ArgModel>
    decreases args.len(),
{
    if args.len() == 0 {
        None
    } else {
        match new_id_arg(args.drop_last()) {
            Some(a) => Some(a),
            None => if args.last().arg_type == ArgType::NewId {
                Some(args.last())
            } else {
                None
            },
        }
    }
}

/// A request can get a stub: it creates at most one object, and its object arguments name
/// their interfaces.
pub open spec fn stub_ready(m: MessageModel) -> bool {
    &&& new_id_count(m.args) <= 1
    &&& forall|j: int| 0 <= j < m.args.len() ==> object_typed(#[trigger] m.args[j])
}

/// The stub parameter of an argument: the created object is returned, not passed; an untyped
/// one is asked for its interface and version.
pub open spec fn stub_param(a: ArgModel) -> Seq<char> {
    if a.arg_type == ArgType::NewId {
        if a.interface is None {
            "    interface: *const super::wl_interface,\n"@ + "    version: u32,\n"@
        } else {
            Seq::empty()
        }
    } else {
        "    "@ + a.name + ": "@ + arg_rust_type(a) + ",\n"@
    }
}

/// The argument that the stub passes to `wl_proxy_marshal_flags` for an argument.
pub open spec fn call_arg(a: ArgModel) -> Seq<char> {
    if a.arg_type == ArgType::NewId {
        (if a.interface is None {
            "            (*interface).name,\n"@ + "            version,\n"@
        } else {
            Seq::empty()
        }) + "            std::ptr::null::<std::ffi::c_void>(),\n"@
    } else {
        "            "@ + a.name + ",\n"@
    }
}

/// The end of the stub's signature: it returns the created object, if any.
pub open spec fn stub_return(ret: Option<ArgModel>) -> Seq<char> {
    match ret {
        Some(a) => match a.interface {
            Some(name) => ") -> *mut "@ + name + " {\n"@,
            None => ") -> *mut std::ffi::c_void {\n"@,
        },
        None => ") { \n"@,
    }
}

/// The interface argument of the marshalling call.
pub open spec fn stub_interface(ret: Option<ArgModel>) -> Seq<char> {
    match ret {
        Some(a) => match a.interface {
            Some(name) => "            &"@ + name + "_interface,\n"@,
            None => "            interface,\n"@,
        },
        None => "            std::ptr::null(),\n"@,
    }
}

/// The version argument of the marshalling call: the asked version for an untyped object,
/// else the proxy's version.
pub open spec fn stub_version(iname: Seq<char>, ret: Option<ArgModel>) -> Seq<char> {
    if ret matches Some(a) && a.interface is None {
        "            version,\n"@
    } else {
        "            (lib.wl_proxy_get_version)("@ + iname + " as *mut super::wl_proxy),\n"@
    }
}

/// The flags argument of the marshalling call: destructors destroy the proxy.
pub open spec fn stub_flags(m: MessageModel) -> Seq<char> {
    if m.message_type == Some("destructor"@) {
        "            super::WL_MARSHAL_FLAG_DESTROY,\n"@
    } else {
        "            0,\n"@
    }
}

/// The signature of a request's stub, up to the opening brace of its body.
pub open spec fn stub_head(iname: Seq<char>, m: MessageModel) -> Seq<char> {
    "#[inline]\n"@ + "pub unsafe fn "@ + iname + "_"@ + m.name + "(\n"@ + "    lib: &super::Lib,\n"@
        + "    "@ + iname + ": *mut "@ + iname + ",\n"@ + concat_upto(
        m.args.len() as int,
        |k: int| stub_param(m.args[k]),
    ) + stub_return(new_id_arg(m.args))
}

/// The start of the marshalling call of a request's stub: proxy and opcode.
pub open spec fn stub_call_open(iname: Seq<char>, iface_upper: Seq<char>, message_upper: Seq<char>) -> Seq<char> {
    "    unsafe {\n"@ + "        (lib.wl_proxy_marshal_flags)(\n"@ + "            "@ + iname
        + " as *mut super::wl_proxy,\n"@ + "            "@ + iface_upper + "_"@ + message_upper
        + ",\n"@
}

/// The interface, version and flags arguments of the marshalling call.
pub open spec fn stub_call_head(iname: Seq<char>, m: MessageModel) -> Seq<char> {
    stub_interface(new_id_arg(m.args)) + stub_version(iname, new_id_arg(m.args)) + stub_flags(m)
}

/// The request's own arguments in the marshalling call.
pub open spec fn stub_call_args(m: MessageModel) -> Seq<char> {
    concat_upto(m.args.len() as int, |k: int| call_arg(m.args[k]))
}

/// The end of a stub: the created object is returned.
pub open spec fn stub_close(m: MessageModel) -> Seq<char> {
    (if new_id_arg(m.args) is Some {
        "        ) as _\n"@
    } else {
        "        );\n"@
    }) + "    }\n"@ + "}\n\n"@
}

/// The stub of a request: an unsafe function that marshals the request on the proxy.
pub open spec fn stub_text(iname: Seq<char>, m: MessageModel, iface_upper: Seq<char>, message_upper: Seq<char>) -> Seq<char> {
    stub_head(iname, m) + stub_call_open(iname, iface_upper, message_upper) + stub_call_head(iname, m)
        + stub_call_args(m) + stub_close(m)
}

/// The stubs of all requests of an interface.
#[verifier::opaque]
pub open spec fn stubs_text(i: InterfaceModel) -> Seq<char> {
    concat_upto(
        i.requests.len() as int,
        |k: int| stub_text(i.name, i.requests[k], uppercase(i.name), uppercase(i.requests[k].name)),
    )
}

/// Every request of an interface can get a stub.
pub open spec fn stubs_ready(i: InterfaceModel) -> bool {
    forall|k: int| 0 <= k < i.requests.len() ==> stub_ready(#[trigger] i.requests[k])
}

/// The index of the first `new_id` argument of `msg`.
fn find_new_id(msg: &Message) -> (r: Option<usize>)
    ensures
        match r {
            Some(j) => j < msg@.args.len() && new_id_arg(msg@.args) == Some(msg@.args[j as int]),
            None => new_id_arg(msg@.args) is None,
        },
{
    let ghost args = msg@.args;
    let mut found: Option<usize> = None;
    let mut k: usize = 0;
    while k < msg.args.len()
        invariant
            k <= msg.args@.len(),
            args == msg@.args,
            args.len() == msg.args@.len(),
            match found {
                Some(j) => j < k && new_id_arg(args.take(k as int)) == Some(args[j as int]),
                None => new_id_arg(args.take(k as int)) is None,
            },
        decreases msg.args@.len() - k,
    {
        assert(args.take(k + 1).drop_last() =~= args.take(k as int));
        assert(msg.args[k as int]@ == args[k as int]);
        if found.is_none() && msg.args[k].arg_type == ArgType::NewId {
            found = Some(k);
        }
        k = k + 1;
    }
    assert(args.take(args.len() as int) =~= args);
    found
}

fn emit_stub_params(out: &mut String, msg: &Message)
    requires
        stub_ready(msg@),
    ensures
        final(out)@ == old(out)@ + concat_upto(msg@.args.len() as int, |k: int| stub_param(msg@.args[k])),
{
    let ghost start = out@;
    let ghost args = msg@.args;
    let ghost f = |k: int| stub_param(args[k]);
    let mut k: usize = 0;
    while k < msg.args.len()
        invariant
            k <= msg.args@.len(),
            args == msg@.args,
            args.len() == msg.args@.len(),
            stub_ready(msg@),
            f == (|k: int| stub_param(args[k])),
            out@ == start + concat_upto(k as int, f),
        decreases msg.args@.len() - k,
    {
        let arg = &msg.args[k];
        assert(arg@ == args[k as int]);
        assert(object_typed(args[k as int]));
        proof {
            lemma_concat_upto_step(k as int, f);
        }
        if arg.arg_type == ArgType::NewId {
            if arg.interface.is_none() {
                push_str(out, "    interface: *const super::wl_interface,\n");
                push_str(out, "    version: u32,\n");
            }
        } else {
            push_str(out, "    ");
            push_str(out, arg.name);
            push_str(out, ": ");
            emit_arg_type(out, arg);
            push_str(out, ",\n");
        }
        k = k + 1;
    }
}

fn emit_call_args(out: &mut String, msg: &Message)
    ensures
        final(out)@ == old(out)@ + stub_call_args(msg@),
{
    let ghost start = out@;
    let ghost args = msg@.args;
    let ghost f = |k: int| call_arg(args[k]);
    let mut k: usize = 0;
    while k < msg.args.len()
        invariant
            k <= msg.args@.len(),
            args == msg@.args,
            args.len() == msg.args@.len(),
            f == (|k: int| call_arg(args[k])),
            out@ == start + concat_upto(k as int, f),
        decreases msg.args@.len() - k,
    {
        let arg = &msg.args[k];
        assert(arg@ == args[k as int]);
        proof {
            lemma_concat_upto_step(k as int, f);
        }
        if arg.arg_type == ArgType::NewId {
            if arg.interface.is_none() {
                push_str(out, "            (*interface).name,\n");
                push_str(out, "            version,\n");
            }
            push_str(out, "            std::ptr::null::<std::ffi::c_void>(),\n");
        } else {
            push_str(out, "            ");
            push_str(out, arg.name);
            push_str(out, ",\n");
        }
        k = k + 1;
    }
}

fn emit_stub_head(out: &mut String, interface: &Interface, msg: &Message, ret: Option<&Arg>)
    requires
        stub_ready(msg@),
        new_id_arg(msg@.args) == match ret {
            Some(a) => Some(a@),
            None => None,
        },
    ensures
        final(out)@ == old(out)@ + stub_head(interface@.name, msg@),
{
    let ghost start = out@;
    push_str(out, "#[inline]\n");
    push_str(out, "pub unsafe fn ");
    push_str(out, interface.name);
    push_str(out, "_");
    push_str(out, msg.name);
    push_str(out, "(\n");
    push_str(out, "    lib: &super::Lib,\n");
    push_str(out, "    ");
    push_str(out, interface.name);
    push_str(out, ": *mut ");
    push_str(out, interface.name);
    push_str(out, ",\n");
    emit_stub_params(out, msg);
    match ret {
        Some(a) => match a.interface {
            Some(name) => {
                push_str(out, ") -> *mut ");
                push_str(out, name);
                push_str(out, " {\n");
            },
            None => push_str(out, ") -> *mut std::ffi::c_void {\n"),
        },
        None => push_str(out, ") { \n"),
    }
    assert(out@ =~= start + stub_head(interface@.name, msg@));
}

fn emit_stub_call_head(out: &mut String, interface: &Interface, msg: &Message, ret: Option<&Arg>)
    requires
        new_id_arg(msg@.args) == match ret {
            Some(a) => Some(a@),
            None => None,
        },
    ensures
        final(out)@ == old(out)@ + stub_call_head(interface@.name, msg@),
{
    let ghost start = out@;
    match ret {
        Some(a) => match a.interface {
            Some(name) => {
                push_str(out, "            &");
                push_str(out, name);
                push_str(out, "_interface,\n");
            },
            None => push_str(out, "            interface,\n"),
        },
        None => push_str(out, "            std::ptr::null(),\n"),
    }
    let untyped = match ret {
        Some(a) => a.interface.is_none(),
        None => false,
    };
    if untyped {
        push_str(out, "            version,\n");
    } else {
        push_str(out, "            (lib.wl_proxy_get_version)(");
        push_str(out, interface.name);
        push_str(out, " as *mut super::wl_proxy),\n");
    }
    let destructor = match msg.message_type {
        Some(t) => str_eq(t, "destructor"),
        None => false,
    };
    if destructor {
        push_str(out, "            super::WL_MARSHAL_FLAG_DESTROY,\n");
    } else {
        push_str(out, "            0,\n");
    }
    assert(out@ =~= start + stub_call_head(interface@.name, msg@));
}

/// Appends the stub of request `msg`, given the upper-case names of the interface and the
/// request.
pub fn emit_stub(out: &mut String, interface: &Interface, msg: &Message, iface_upper: &str, message_upper: &str)
    requires
        stub_ready(msg@),
    ensures
        final(out)@ == old(out)@ + stub_text(interface@.name, msg@, iface_upper@, message_upper@),
{
    let ghost start = out@;
    let ghost iname = interface@.name;
    let found = find_new_id(msg);
    let ret: Option<&Arg> = match found {
        Some(j) => Some(&msg.args[j]),
        None => None,
    };
    emit_stub_head(out, interface, msg, ret);
    let ghost p1 = out@;
    push_str(out, "    unsafe {\n");
    push_str(out, "        (lib.wl_proxy_marshal_flags)(\n");
    push_str(out, "            ");
    push_str(out, interface.name);
    push_str(out, " as *mut super::wl_proxy,\n");
    push_str(out, "            ");
    push_str(out, iface_upper);
    push_str(out, "_");
    push_str(out, message_upper);
    push_str(out, ",\n");
    assert(out@ =~= p1 + stub_call_open(iname, iface_upper@, message_upper@));
    let ghost p2 = out@;
    emit_stub_call_head(out, interface, msg, ret);
    emit_call_args(out, msg);
    let ghost p3 = out@;
    if ret.is_some() {
        push_str(out, "        ) as _\n");
    } else {
        push_str(out, "        );\n");
    }
    push_str(out, "    }\n");
    push_str(out, "}\n\n");
    assert(out@ =~= p3 + stub_close(msg@));
    assert(out@ =~= start + stub_text(iname, msg@, iface_upper@, message_upper@));
}

/// Appends the stubs of all requests of `interface`.
pub fn emit_stubs(out: &mut String, interface: &Interface)
    requires
        stubs_ready(interface@),
    ensures
        final(out)@ == old(out)@ + stubs_text(interface@),
{
    proof {
        reveal(stubs_text);
    }
    let iface_upper = to_uppercase(interface.name);
    let ghost start = out@;
    let ghost im = interface@;
    let ghost f = |k: int| stub_text(im.name, im.requests[k], uppercase(im.name), uppercase(im.requests[k].name));
    let mut k: usize = 0;
    while k < interface.requests.len()
        invariant
            k <= interface.requests@.len(),
            im == interface@,
            im.requests.len() == interface.requests@.len(),
            stubs_ready(im),
            iface_upper@ == uppercase(im.name),
            f == (|k: int| stub_text(im.name, im.requests[k], uppercase(im.name), uppercase(im.requests[k].name))),
            out@ == start + concat_upto(k as int, f),
        decreases interface.requests@.len() - k,
    {
        let msg = &interface.requests[k];
        assert(msg@ == im.requests[k as int]);
        assert(stub_ready(im.requests[k as int]));
        proof {
            lemma_concat_upto_step(k as int, f);
        }
        let message_upper = to_uppercase(msg.name);
        emit_stub(out, interface, msg, iface_upper.as_str(), message_upper.as_str());
        k = k + 1;
    }
}


// ---- interfaces

/// The `wl_interface` description of an interface: name, version and message tables.
#[verifier::opaque]
pub open spec fn interface_decl(i: InterfaceModel) -> Seq<char> {
    decl_head(i) + decl_methods(i) + decl_events(i) + "};\n\n"@
}

/// The opening lines of an interface description: its name and version.
pub open spec fn decl_head(i: InterfaceModel) -> Seq<char> {
    "pub static "@ + i.name + "_interface: super::wl_interface = super::wl_interface {\n"@
        + "    name: c\""@ + i.name + "\".as_ptr(),\n"@ + "    version: "@ + decimal(
        i.version as nat,
    ) + ",\n"@
}

/// An interface can be generated: its events can be typed in a listener and its requests get
/// stubs.
pub open spec fn interface_ready(i: InterfaceModel) -> bool {
    listener_typed(i, MessageKind::Event) && stubs_ready(i)
}

/// Everything generated for an interface, in order: the proxy and listener structs, the
/// request and event tables, the interface description, the enumeration constants, the
/// request opcodes and the request stubs.
#[verifier::opaque]
pub open spec fn interface_text(i: InterfaceModel) -> Seq<char> {
    structs_text(i, MessageKind::Event, |n: Seq<char>| field_name(n)) + messages_text(
        i,
        MessageKind::Request,
    ) + messages_text(i, MessageKind::Event) + interface_decl(i) + enums_text(i) + opcodes_text(
        i,
        MessageKind::Request,
    ) + stubs_text(i)
}

/// The lines of an interface description that count and point to the requests.
pub open spec fn decl_methods(i: InterfaceModel) -> Seq<char> {
    "    method_count: "@ + decimal(i.requests.len()) + ",\n"@ + (if i.requests.len() > 0 {
        "    methods: "@ + i.name + "_requests.as_ptr(),\n"@
    } else {
        "    methods: std::ptr::null(),\n"@
    })
}

/// The lines of an interface description that count and point to the events.
pub open spec fn decl_events(i: InterfaceModel) -> Seq<char> {
    "    event_count: "@ + decimal(i.events.len()) + ",\n"@ + (if i.events.len() > 0 {
        "    events: "@ + i.name + "_events.as_ptr(),\n"@
    } else {
        "    events: std::ptr::null(),\n"@
    })
}

fn emit_decl_methods(out: &mut String, interface: &Interface)
    ensures
        final(out)@ == old(out)@ + decl_methods(interface@),
{
    let ghost start = out@;
    push_str(out, "    method_count: ");
    push_decimal(out, interface.requests.len() as u64);
    push_str(out, ",\n");
    if interface.requests.len() > 0 {
        push_str(out, "    methods: ");
        push_str(out, interface.name);
        push_str(out, "_requests.as_ptr(),\n");
    } else {
        push_str(out, "    methods: std::ptr::null(),\n");
    }
    assert(out@ =~= start + decl_methods(interface@));
}

fn emit_decl_events(out: &mut String, interface: &Interface)
    ensures
        final(out)@ == old(out)@ + decl_events(interface@),
{
    let ghost start = out@;
    push_str(out, "    event_count: ");
    push_decimal(out, interface.events.len() as u64);
    push_str(out, ",\n");
    if interface.events.len() > 0 {
        push_str(out, "    events: ");
        push_str(out, interface.name);
        push_str(out, "_events.as_ptr(),\n");
    } else {
        push_str(out, "    events: std::ptr::null(),\n");
    }
    assert(out@ =~= start + decl_events(interface@));
}

fn emit_decl_head(out: &mut String, interface: &Interface)
    ensures
        final(out)@ == old(out)@ + decl_head(interface@),
{
    let ghost start = out@;
    push_str(out, "pub static ");
    push_str(out, interface.name);
    push_str(out, "_interface: super::wl_interface = super::wl_interface {\n");
    push_str(out, "    name: c\"");
    push_str(out, interface.name);
    push_str(out, "\".as_ptr(),\n");
    push_str(out, "    version: ");
    push_decimal(out, interface.version as u64);
    push_str(out, ",\n");
    assert(out@ =~= start + decl_head(interface@));
}

pub(crate) fn emit_interface_decl(out: &mut String, interface: &Interface)
    ensures
        final(out)@ == old(out)@ + interface_decl(interface@),
{
    let ghost start = out@;
    emit_decl_head(out, interface);
    emit_decl_methods(out, interface);
    emit_decl_events(out, interface);
    push_str(out, "};\n\n");
    proof {
        reveal(interface_decl);
    }
    assert(out@ =~= start + interface_decl(interface@));
}

/// Appends everything generated for `interface` (see [`interface_text`]).
pub fn emit_interface(out: &mut String, interface: &Interface)
    requires
        interface_ready(interface@),
    ensures
        final(out)@ == old(out)@ + interface_text(interface@),
{
    proof {
        reveal(interface_text);
    }
    let ghost start = out@;
    emit_structs(out, interface, MessageKind::Event);
    emit_messages(out, interface, MessageKind::Request);
    emit_messages(out, interface, MessageKind::Event);
    emit_interface_decl(out, interface);
    emit_enums(out, interface);
    emit_opcodes(out, interface, MessageKind::Request);
    emit_stubs(out, interface);
    assert(out@ =~= start + interface_text(interface@));
}

/// Every interface of a protocol can be generated.
pub open spec fn protocol_ready(p: ProtocolModel) -> bool {
    forall|k: int| 0 <= k < p.interfaces.len() ==> interface_ready(#[trigger] p.interfaces[k])
}

/// Whether a request can get a stub.
pub fn is_stub_ready(msg: &Message) -> (r: bool)
    ensures
        r == stub_ready(msg@),
{
    let ghost args = msg@.args;
    let mut new_ids: usize = 0;
    let mut typed = true;
    let mut k: usize = 0;
    while k < msg.args.len()
        invariant
            k <= msg.args@.len(),
            args == msg@.args,
            args.len() == msg.args@.len(),
            new_ids == new_id_count(args.take(k as int)),
            new_ids <= k,
            typed == (forall|j: int| 0 <= j < k ==> object_typed(#[trigger] args[j])),
        decreases msg.args@.len() - k,
    {
        assert(args.take(k + 1).drop_last() =~= args.take(k as int));
        assert(args.take(k + 1).last() == args[k as int]);
        assert(msg.args[k as int]@ == args[k as int]);
        let arg = &msg.args[k];
        if arg.arg_type == ArgType::NewId {
            new_ids = new_ids + 1;
        }
        if arg.arg_type == ArgType::Object && arg.interface.is_none() {
            typed = false;
        }
        k = k + 1;
    }
    assert(args.take(args.len() as int) =~= args);
    new_ids <= 1 && typed
}

/// Whether every argument of `msg` can be typed in a listener.
fn is_listener_message_typed(msg: &Message) -> (r: bool)
    ensures
        r == (forall|j: int| 0 <= j < msg@.args.len() ==> new_id_typed(#[trigger] msg@.args[j])),
{
    let ghost args = msg@.args;
    let mut k: usize = 0;
    while k < msg.args.len()
        invariant
            k <= msg.args@.len(),
            args == msg@.args,
            args.len() == msg.args@.len(),
            forall|j: int| 0 <= j < k ==> new_id_typed(#[trigger] args[j]),
        decreases msg.args@.len() - k,
    {
        assert(msg.args[k as int]@ == args[k as int]);
        if msg.args[k].arg_type == ArgType::NewId && msg.args[k].interface.is_none() {
            return false;
        }
        k = k + 1;
    }
    true
}

/// Whether an interface can be generated.
pub fn is_interface_ready(interface: &Interface) -> (r: bool)
    ensures
        r == interface_ready(interface@),
{
    let ghost i = interface@;
    let mut k: usize = 0;
    while k < interface.events.len()
        invariant
            k <= interface.events@.len(),
            i == interface@,
            i.events.len() == interface.events@.len(),
            forall|a: int, j: int|
                0 <= a < k && 0 <= j < i.events[a].args.len() ==> new_id_typed(
                    #[trigger] i.events[a].args[j],
                ),
        decreases interface.events@.len() - k,
    {
        assert(interface.events[k as int]@ == i.events[k as int]);
        if !is_listener_message_typed(&interface.events[k]) {
            assert(!listener_typed(i, MessageKind::Event));
            return false;
        }
        k = k + 1;
    }
    assert(listener_typed(i, MessageKind::Event));
    let mut k: usize = 0;
    while k < interface.requests.len()
        invariant
            k <= interface.requests@.len(),
            i == interface@,
            i.requests.len() == interface.requests@.len(),
            listener_typed(i, MessageKind::Event),
            forall|a: int| 0 <= a < k ==> stub_ready(#[trigger] i.requests[a]),
        decreases interface.requests@.len() - k,
    {
        assert(interface.requests[k as int]@ == i.requests[k as int]);
        if !is_stub_ready(&interface.requests[k]) {
            return false;
        }
        k = k + 1;
    }
    true
}

/// Whether a protocol can be generated: the condition under which `generate_protocol` may
/// be called.
pub fn is_protocol_ready(protocol: &Protocol) -> (r: bool)
    ensures
        r == protocol_ready(protocol@),
{
    let ghost p = protocol@;
    let mut k: usize = 0;
    while k < protocol.interfaces.len()
        invariant
            k <= protocol.interfaces@.len(),
            p == protocol@,
            p.interfaces.len() == protocol.interfaces@.len(),
            forall|a: int| 0 <= a < k ==> interface_ready(#[trigger] p.interfaces[a]),
        decreases protocol.interfaces@.len() - k,
    {
        assert(protocol.interfaces[k as int]@ == p.interfaces[k as int]);
        if !is_interface_ready(&protocol.interfaces[k]) {
            return false;
        }
        k = k + 1;
    }
    true
}

/// The bindings of a protocol: those of its interfaces, in order.
pub open spec fn protocol_text(p: ProtocolModel) -> Seq<char> {
    concat_upto(p.interfaces.len() as int, |k: int| interface_text(p.interfaces[k]))
}

/// Appends the bindings of `protocol` to `out`.
pub fn generate_protocol(out: &mut String, protocol: &Protocol)
    requires
        protocol_ready(protocol@),
    ensures
        final(out)@ == old(out)@ + protocol_text(protocol@),
{
    let ghost start = out@;
    let ghost pm = protocol@;
    let ghost f = |k: int| interface_text(pm.interfaces[k]);
    let mut k: usize = 0;
    while k < protocol.interfaces.len()
        invariant
            k <= protocol.interfaces@.len(),
            pm == protocol@,
            pm.interfaces.len() == protocol.interfaces@.len(),
            protocol_ready(pm),
            f == (|k: int| interface_text(pm.interfaces[k])),
            out@ == start + concat_upto(k as int, f),
        decreases protocol.interfaces@.len() - k,
    {
        let interface = &protocol.interfaces[k];
        assert(interface@ == pm.interfaces[k as int]);
        assert(interface_ready(pm.interfaces[k as int]));
        proof {
            lemma_concat_upto_step(k as int, f);
        }
        emit_interface(out, interface);
        k = k + 1;
    }
}

} // verus!
