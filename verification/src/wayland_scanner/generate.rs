//! The bindings generator in the form that writes each message's `types` table inline, and
//! names listener fields after the events as they are.
use crate::wayland_scanner::emit::{
    concat_upto, emit_enums, emit_interface_decl, emit_listener_field, emit_message_entry_head,
    emit_message_table_head, emit_opcodes, emit_proxy_struct, emit_stubs, emit_type_entries,
    enums_text, interface_decl, listener_typed, message_entry, message_table_head, messages,
    messages_of, new_id_typed, opcodes_text, stubs_ready, stubs_text, structs_text, type_entries,
    listener_field, MessageKind,
};
use crate::wayland_scanner::protocol::{
    Arg, ArgModel, ArgType, Interface, InterfaceModel, Message, MessageModel, Protocol,
    ProtocolModel,
};
use crate::wayland_scanner::text::push_str;
use vstd::prelude::*;
use vstd::string::*;

verus! {

broadcast use vstd::string::group_string_axioms;

/// The `types` table of a message needs no entry for this argument: it is not a typed object.
pub open spec fn null_type(a: ArgModel) -> bool {
    !(a.interface is Some && (a.arg_type == ArgType::Object || a.arg_type == ArgType::NewId))
}

pub fn arg_null(arg: &Arg) -> (r: bool)
    ensures
        r == null_type(arg@),
{
    !(arg.interface.is_some() && (arg.arg_type == ArgType::Object || arg.arg_type == ArgType::NewId))
}

/// The `types` field of a message: null when no argument is a typed object, else an inline
/// table.
pub open spec fn inline_types(m: MessageModel) -> Seq<char> {
    if forall|j: int| 0 <= j < m.args.len() ==> null_type(#[trigger] m.args[j]) {
        "        types: std::ptr::null(),\n"@
    } else {
        "        types: [\n"@ + type_entries(m, "            "@) + "        ].as_ptr(),\n"@
    }
}

/// The message table of `kind` with inline `types`; nothing when there are no such messages.
#[verifier::opaque]
pub open spec fn inline_messages_text(i: InterfaceModel, kind: MessageKind) -> Seq<char> {
    let msgs = messages_of(i, kind);
    if msgs.len() == 0 {
        Seq::empty()
    } else {
        message_table_head(i, kind) + concat_upto(
            msgs.len() as int,
            |k: int| message_entry(msgs[k], inline_types(msgs[k])),
        ) + "];\n\n"@
    }
}

/// Appends the proxy struct of `interface` and the listener struct of its messages of
/// `kind`, with fields named after the messages.
pub fn emit_structs(out: &mut String, interface: &Interface, kind: MessageKind)
    requires
        listener_typed(interface@, kind),
    ensures
        final(out)@ == old(out)@ + structs_text(interface@, kind, |n: Seq<char>| n),
{
    proof {
        reveal(structs_text);
    }
    let ghost start = out@;
    emit_proxy_struct(out, interface);
    let msgs = messages(interface, kind);
    let ghost ms = messages_of(interface@, kind);
    let ghost name_of = |n: Seq<char>| n;
    if msgs.len() == 0 {
        assert(out@ =~= start + structs_text(interface@, kind, name_of));
        return;
    }
    push_str(out, "pub struct ");
    push_str(out, interface.name);
    push_str(out, "_listener {\n");
    let ghost head = out@;
    let ghost f = |k: int| listener_field(interface@.name, ms[k], name_of(ms[k].name));
    let mut k: usize = 0;
    while k < msgs.len()
        invariant
            k <= msgs@.len(),
            ms == msgs@.map_values(|m: Message| m@),
            ms == messages_of(interface@, kind),
            listener_typed(interface@, kind),
            f == (|k: int| listener_field(interface@.name, ms[k], name_of(ms[k].name))),
            name_of == (|n: Seq<char>| n),
            out@ == head + concat_upto(k as int, f),
        decreases msgs@.len() - k,
    {
        let msg = &msgs[k];
        assert(msg@ == ms[k as int]);
        proof {
            assert(concat_upto(k + 1, f) == concat_upto(k as int, f) + f(k as int));
            assert forall|j: int| 0 <= j < msg@.args.len() implies new_id_typed(#[trigger] msg@.args[j]) by {
                assert(new_id_typed(messages_of(interface@, kind)[k as int].args[j]));
            }
        }
        emit_listener_field(out, interface, msg, msg.name);
        k = k + 1;
    }
    push_str(out, "}\n\n");
    assert(out@ =~= start + structs_text(interface@, kind, name_of));
}

/// Whether no argument of `msg` is a typed object.
fn all_args_null(msg: &Message) -> (r: bool)
    ensures
        r == forall|j: int| 0 <= j < msg@.args.len() ==> null_type(#[trigger] msg@.args[j]),
{
    let mut k: usize = 0;
    while k < msg.args.len()
        invariant
            k <= msg.args@.len(),
            msg@.args.len() == msg.args@.len(),
            forall|j: int| 0 <= j < k ==> null_type(#[trigger] msg@.args[j]),
        decreases msg.args@.len() - k,
    {
        assert(msg.args[k as int]@ == msg@.args[k as int]);
        if !arg_null(&msg.args[k]) {
            return false;
        }
        k = k + 1;
    }
    true
}

fn emit_inline_message_entry(out: &mut String, msg: &Message)
    ensures
        final(out)@ == old(out)@ + message_entry(msg@, inline_types(msg@)),
{
    let ghost start = out@;
    emit_message_entry_head(out, msg);
    let ghost mid = out@;
    if all_args_null(msg) {
        push_str(out, "        types: std::ptr::null(),\n");
    } else {
        push_str(out, "        types: [\n");
        emit_type_entries(out, msg, "            ");
        push_str(out, "        ].as_ptr(),\n");
    }
    assert(out@ =~= mid + inline_types(msg@));
    push_str(out, "    },\n");
    assert(out@ =~= start + message_entry(msg@, inline_types(msg@)));
}

/// Appends the message table of the messages of `kind`, with their `types` inline.
pub fn emit_messages(out: &mut String, interface: &Interface, kind: MessageKind)
    ensures
        final(out)@ == old(out)@ + inline_messages_text(interface@, kind),
{
    proof {
        reveal(inline_messages_text);
    }
    let ghost start = out@;
    let msgs = messages(interface, kind);
    let ghost ms = messages_of(interface@, kind);
    if msgs.len() == 0 {
        assert(out@ =~= start + inline_messages_text(interface@, kind));
        return;
    }
    emit_message_table_head(out, interface, kind);
    let ghost head = out@;
    let ghost f = |k: int| message_entry(ms[k], inline_types(ms[k]));
    let mut k: usize = 0;
    while k < msgs.len()
        invariant
            k <= msgs@.len(),
            ms == msgs@.map_values(|m: Message| m@),
            f == (|k: int| message_entry(ms[k], inline_types(ms[k]))),
            out@ == head + concat_upto(k as int, f),
        decreases msgs@.len() - k,
    {
        let msg = &msgs[k];
        assert(msg@ == ms[k as int]);
        proof {
            assert(concat_upto(k + 1, f) == concat_upto(k as int, f) + f(k as int));
        }
        emit_inline_message_entry(out, msg);
        k = k + 1;
    }
    push_str(out, "];\n\n");
    assert(out@ =~= start + inline_messages_text(interface@, kind));
}

/// An interface can be generated: its events can be typed in a listener and its requests get
/// stubs.
pub open spec fn interface_ready(i: InterfaceModel) -> bool {
    listener_typed(i, MessageKind::Event) && stubs_ready(i)
}

/// Everything generated for an interface, in order: the proxy and listener structs, the
/// request and event tables, the interface description, the enumeration constants, the
/// request opcodes and the request stubs.
#[verifier::opaque]
pub open spec fn interface_text(i: InterfaceModel) -> Seq<char> {
    structs_text(i, MessageKind::Event, |n: Seq<char>| n) + inline_messages_text(
        i,
        MessageKind::Request,
    ) + inline_messages_text(i, MessageKind::Event) + interface_decl(i) + enums_text(i)
        + opcodes_text(i, MessageKind::Request) + stubs_text(i)
}

/// Appends everything generated for `interface` (see [`interface_text`]).
pub fn emit_interface(out: &mut String, interface: &Interface)
    requires
        interface_ready(interface@),
    ensures
        final(out)@ == old(out)@ + interface_text(interface@),
{
    proof {
        reveal(interface_text);
    }
    let ghost start = out@;
    emit_structs(out, interface, MessageKind::Event);
    emit_messages(out, interface, MessageKind::Request);
    emit_messages(out, interface, MessageKind::Event);
    emit_interface_decl(out, interface);
    emit_enums(out, interface);
    emit_opcodes(out, interface, MessageKind::Request);
    emit_stubs(out, interface);
    assert(out@ =~= start + interface_text(interface@));
}

/// Every interface of a protocol can be generated.
pub open spec fn protocol_ready(p: ProtocolModel) -> bool {
    forall|k: int| 0 <= k < p.interfaces.len() ==> interface_ready(#[trigger] p.interfaces[k])
}

/// The bindings of a protocol: those of its interfaces, in order.
pub open spec fn protocol_text(p: ProtocolModel) -> Seq<char> {
    concat_upto(p.interfaces.len() as int, |k: int| interface_text(p.interfaces[k]))
}

/// Appends the bindings of `protocol` to `out`.
pub fn generate_protocol(out: &mut String, protocol: &Protocol)
    requires
        protocol_ready(protocol@),
    ensures
        final(out)@ == old(out)@ + protocol_text(protocol@),
{
    let ghost start = out@;
    let ghost pm = protocol@;
    let ghost f = |k: int| interface_text(pm.interfaces[k]);
    let mut k: usize = 0;
    while k < protocol.interfaces.len()
        invariant
            k <= protocol.interfaces@.len(),
            pm == protocol@,
            pm.interfaces.len() == protocol.interfaces@.len(),
            protocol_ready(pm),
            f == (|k: int| interface_text(pm.interfaces[k])),
            out@ == start + concat_upto(k as int, f),
        decreases protocol.interfaces@.len() - k,
    {
        let interface = &protocol.interfaces[k];
        assert(interface@ == pm.interfaces[k as int]);
        assert(interface_ready(pm.interfaces[k as int]));
        proof {
            assert(concat_upto(k + 1, f) == concat_upto(k as int, f) + f(k as int));
        }
        emit_interface(out, interface);
        k = k + 1;
    }
}

} // verus!
