//! The model of a wayland protocol description (see wayland.dtd).
use vstd::prelude::*;

verus! {

/// Wire type of a message argument.
#[derive(Debug, Default, Clone, Copy, PartialEq, Eq, Structural)]
pub enum ArgType {
    #[default]
    NewId,
    Int,
    Uint,
    Fixed,
    String,
    Object,
    Array,
    Fd,
}

/// An argument of a request or an event.
#[derive(Debug, Default)]
pub struct Arg<'a> {
    pub name: &'a str,
    pub arg_type: ArgType,
    pub interface: Option<&'a str>,
    pub allow_null: bool,
    pub enum_name: Option<&'a str>,
}

/// A request or an event.
#[derive(Debug, Default)]
pub struct Message<'a> {
    pub name: &'a str,
    pub message_type: Option<&'a str>,
    pub since: Option<u32>,
    pub deprecated_since: Option<u32>,
    pub args: Vec<Arg<'a>>,
}

/// A named value of an enumeration.
#[derive(Debug, Default)]
pub struct Entry<'a> {
    pub name: &'a str,
    pub value: u32,
    pub since: Option<u32>,
    pub deprecated_since: Option<u32>,
}

/// An enumeration of an interface.
#[derive(Debug, Default)]
pub struct Enum<'a> {
    pub name: &'a str,
    pub since: Option<u32>,
    pub bitfield: bool,
    pub entries: Vec<Entry<'a>>,
}

/// An interface: its requests, events and enumerations.
#[derive(Debug, Default)]
pub struct Interface<'a> {
    pub name: &'a str,
    pub version: u32,
    pub requests: Vec<Message<'a>>,
    pub events: Vec<Message<'a>>,
    pub enums: Vec<Enum<'a>>,
}

/// A protocol: a named list of interfaces.
#[derive(Debug, Default)]
pub struct Protocol<'a> {
    pub name: &'a str,
    pub interfaces: Vec<Interface<'a>>,
}

// ---- models

/// The characters of an optional string.
pub open spec fn opt_chars(o: Option<&str>) -> Option<Seq<char>> {
    match o {
        Some(s) => Some(s@),
        None => None,
    }
}

/// An argument, with its strings as characters.
#[verifier::ext_equal]
pub struct ArgModel {
    pub name: Seq<char>,
    pub arg_type: ArgType,
    pub interface: Option<Seq<char>>,
    pub allow_null: bool,
    pub enum_name: Option<Seq<char>>,
}

/// A request or an event, with its strings as characters.
#[verifier::ext_equal]
pub struct MessageModel {
    pub name: Seq<char>,
    pub message_type: Option<Seq<char>>,
    pub since: Option<u32>,
    pub deprecated_since: Option<u32>,
    pub args: Seq<ArgModel>,
}

/// An enumeration value, with its name as characters.
#[verifier::ext_equal]
pub struct EntryModel {
    pub name: Seq<char>,
    pub value: u32,
    pub since: Option<u32>,
    pub deprecated_since: Option<u32>,
}

/// An enumeration, with its strings as characters.
#[verifier::ext_equal]
pub struct EnumModel {
    pub name: Seq<char>,
    pub since: Option<u32>,
    pub bitfield: bool,
    pub entries: Seq<EntryModel>,
}

/// An interface, with its strings as characters.
#[verifier::ext_equal]
pub struct InterfaceModel {
    pub name: Seq<char>,
    pub version: u32,
    pub requests: Seq<MessageModel>,
    pub events: Seq<MessageModel>,
    pub enums: Seq<EnumModel>,
}

/// A protocol, with its strings as characters.
#[verifier::ext_equal]
pub struct ProtocolModel {
    pub name: Seq<char>,
    pub interfaces: Seq<InterfaceModel>,
}

impl<'a> View for Arg<'a> {
    type V = ArgModel;

    open spec fn view(&self) -> ArgModel {
        ArgModel {
            name: self.name@,
            arg_type: self.arg_type,
            interface: opt_chars(self.interface),
            allow_null: self.allow_null,
            enum_name: opt_chars(self.enum_name),
        }
    }
}

impl<'a> View for Message<'a> {
    type V = MessageModel;

    open spec fn view(&self) -> MessageModel {
        MessageModel {
            name: self.name@,
            message_type: opt_chars(self.message_type),
            since: self.since,
            deprecated_since: self.deprecated_since,
            args: self.args@.map_values(|a: Arg<'a>| a@),
        }
    }
}

impl<'a> View for Entry<'a> {
    type V = EntryModel;

    open spec fn view(&self) -> EntryModel {
        EntryModel {
            name: self.name@,
            value: self.value,
            since: self.since,
            deprecated_since: self.deprecated_since,
        }
    }
}

impl<'a> View for Enum<'a> {
    type V = EnumModel;

    open spec fn view(&self) -> EnumModel {
        EnumModel {
            name: self.name@,
            since: self.since,
            bitfield: self.bitfield,
            entries: self.entries@.map_values(|e: Entry<'a>| e@),
        }
    }
}

impl<'a> View for Interface<'a> {
    type V = InterfaceModel;

    open spec fn view(&self) -> InterfaceModel {
        InterfaceModel {
            name: self.name@,
            version: self.version,
            requests: self.requests@.map_values(|m: Message<'a>| m@),
            events: self.events@.map_values(|m: Message<'a>| m@),
            enums: self.enums@.map_values(|e: Enum<'a>| e@),
        }
    }
}

impl<'a> View for Protocol<'a> {
    type V = ProtocolModel;

    open spec fn view(&self) -> ProtocolModel {
        ProtocolModel {
            name: self.name@,
            interfaces: self.interfaces@.map_values(|i: Interface<'a>| i@),
        }
    }
}

} // verus!
