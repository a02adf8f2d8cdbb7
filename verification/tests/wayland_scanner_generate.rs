use shin::wayland_scanner::emit::{
    emit_enum_entry, emit_message_signature, emit_opcode, is_protocol_ready,
};
use shin::wayland_scanner::parse::{is_well_structured, parse_protocol, ParseError};
use shin::wayland_scanner::protocol::{Arg, ArgType, Message};

const PROTOCOL: &str = r#"<?xml version="1.0" encoding="UTF-8"?>
<protocol name="test">
  <interface name="wl_foo" version="3">
    <request name="destroy" type="destructor">
    </request>
    <request name="get_bar">
      <arg name="id" type="new_id" interface="wl_bar"/>
      <arg name="name" type="string" allow_null="true"/>
    </request>
    <event name="done" since="2">
      <arg name="serial" type="uint"/>
    </event>
    <enum name="error">
      <entry name="invalid" value="0x10"/>
    </enum>
  </interface>
</protocol>
"#;

const STRUCTS: &str = "#[repr(C)]
pub struct wl_foo {
    _data: [u8; 0],
    _marker: std::marker::PhantomData<(*mut u8, std::marker::PhantomPinned)>,
}

pub struct wl_foo_listener {
    pub done: unsafe extern \"C\" fn(
        data: *mut std::ffi::c_void,
        wl_foo: *mut wl_foo,
        serial: u32,
    ),
}

";

const TABLES: &str = "static wl_foo_destroy_types: SyncWrapper<[*const super::wl_interface; 0]> = SyncWrapper([
]);

static wl_foo_get_bar_types: SyncWrapper<[*const super::wl_interface; 2]> = SyncWrapper([
    &wl_bar_interface as *const super::wl_interface,
    std::ptr::null(),
]);

static wl_foo_requests: [super::wl_message; 2] = [
    super::wl_message {
        name: c\"destroy\".as_ptr(),
        signature: c\"\".as_ptr(),
        types: wl_foo_destroy_types.0.as_ptr(),
    },
    super::wl_message {
        name: c\"get_bar\".as_ptr(),
        signature: c\"n?s\".as_ptr(),
        types: wl_foo_get_bar_types.0.as_ptr(),
    },
];

static wl_foo_done_types: SyncWrapper<[*const super::wl_interface; 1]> = SyncWrapper([
    std::ptr::null(),
]);

static wl_foo_events: [super::wl_message; 1] = [
    super::wl_message {
        name: c\"done\".as_ptr(),
        signature: c\"2u\".as_ptr(),
        types: wl_foo_done_types.0.as_ptr(),
    },
];

";

const INLINE_TABLES: &str = "static wl_foo_requests: [super::wl_message; 2] = [
    super::wl_message {
        name: c\"destroy\".as_ptr(),
        signature: c\"\".as_ptr(),
        types: std::ptr::null(),
    },
    super::wl_message {
        name: c\"get_bar\".as_ptr(),
        signature: c\"n?s\".as_ptr(),
        types: [
            &wl_bar_interface as *const super::wl_interface,
            std::ptr::null(),
        ].as_ptr(),
    },
];

static wl_foo_events: [super::wl_message; 1] = [
    super::wl_message {
        name: c\"done\".as_ptr(),
        signature: c\"2u\".as_ptr(),
        types: std::ptr::null(),
    },
];

";

const REST: &str = "pub static wl_foo_interface: super::wl_interface = super::wl_interface {
    name: c\"wl_foo\".as_ptr(),
    version: 3,
    method_count: 2,
    methods: wl_foo_requests.as_ptr(),
    event_count: 1,
    events: wl_foo_events.as_ptr(),
};

pub const WL_FOO_ERROR_INVALID: u32 = 16;

const WL_FOO_DESTROY: u32 = 0;
const WL_FOO_GET_BAR: u32 = 1;

#[inline]
pub unsafe fn wl_foo_destroy(
    lib: &super::Lib,
    wl_foo: *mut wl_foo,
) { 
    unsafe {
        (lib.wl_proxy_marshal_flags)(
            wl_foo as *mut super::wl_proxy,
            WL_FOO_DESTROY,
            std::ptr::null(),
            (lib.wl_proxy_get_version)(wl_foo as *mut super::wl_proxy),
            super::WL_MARSHAL_FLAG_DESTROY,
        );
    }
}

#[inline]
pub unsafe fn wl_foo_get_bar(
    lib: &super::Lib,
    wl_foo: *mut wl_foo,
    name: *const std::ffi::c_char,
) -> *mut wl_bar {
    unsafe {
        (lib.wl_proxy_marshal_flags)(
            wl_foo as *mut super::wl_proxy,
            WL_FOO_GET_BAR,
            &wl_bar_interface,
            (lib.wl_proxy_get_version)(wl_foo as *mut super::wl_proxy),
            0,
            std::ptr::null::<std::ffi::c_void>(),
            name,
        ) as _
    }
}

";

#[test]
fn generates_bindings_with_types_tables() {
    let protocol = parse_protocol(PROTOCOL).ok().unwrap();
    let mut out = String::new();
    shin::wayland_scanner::generate_protocol(&mut out, &protocol);
    let expected = format!("{STRUCTS}{TABLES}{REST}");
    assert_eq!(out, expected);
}

#[test]
fn generates_bindings_with_inline_types() {
    let protocol = parse_protocol(PROTOCOL).ok().unwrap();
    let mut out = String::new();
    shin::wayland_scanner::generate::generate_protocol(&mut out, &protocol);
    let expected = format!("{STRUCTS}{INLINE_TABLES}{REST}");
    assert_eq!(out, expected);
}

#[test]
fn message_signature_codes() {
    let msg = Message {
        name: "bind",
        message_type: None,
        since: Some(4),
        deprecated_since: None,
        args: vec![
            Arg { name: "name", arg_type: ArgType::Uint, interface: None, allow_null: false, enum_name: None },
            Arg { name: "id", arg_type: ArgType::NewId, interface: None, allow_null: false, enum_name: None },
            Arg { name: "o", arg_type: ArgType::Object, interface: Some("wl_surface"), allow_null: true, enum_name: None },
            Arg { name: "fd", arg_type: ArgType::Fd, interface: None, allow_null: false, enum_name: None },
            Arg { name: "f", arg_type: ArgType::Fixed, interface: None, allow_null: false, enum_name: None },
            Arg { name: "a", arg_type: ArgType::Array, interface: None, allow_null: false, enum_name: None },
            Arg { name: "i", arg_type: ArgType::Int, interface: None, allow_null: false, enum_name: None },
        ],
    };
    let mut out = String::new();
    emit_message_signature(&mut out, &msg);
    assert_eq!(out, "4usun?ohfai");
}

#[test]
fn constants_from_upper_case_names() {
    let mut out = String::new();
    emit_opcode(&mut out, "WL_SEAT", "GET_POINTER", 12);
    emit_enum_entry(&mut out, "WL_SEAT", "CAPABILITY", "KEYBOARD", 2);
    assert_eq!(out, "const WL_SEAT_GET_POINTER: u32 = 12;\npub const WL_SEAT_CAPABILITY_KEYBOARD: u32 = 2;\n");
}

#[test]
fn listener_field_names_escape_type() {
    assert_eq!(shin::wayland_scanner::emit::normalize_message_name("type"), "r#type");
    assert_eq!(shin::wayland_scanner::emit::normalize_message_name("done"), "done");
}

#[test]
fn structure_is_checked_before_parsing() {
    assert!(is_well_structured(PROTOCOL));
    assert!(!is_well_structured(r#"<protocol name="x"><entry name="a" value="1"/></protocol>"#));
    assert!(!is_well_structured(r#"<protocol name="x"><interface name="a" version="1"><interface name="b" version="1"></interface></interface></protocol>"#));
    let bad_num = r#"<protocol name="x"><interface name="a" version="one"></interface></protocol>"#;
    assert!(is_well_structured(bad_num));
    assert!(matches!(parse_protocol(bad_num), Err(ParseError::Num("one"))));
    let bad_type = r#"<protocol name="x"><interface name="a" version="1"><request name="r"><arg name="z" type="float"/></request></interface></protocol>"#;
    assert!(matches!(parse_protocol(bad_type), Err(ParseError::UnknownArgType("float"))));
}

#[test]
fn generatable_protocols_are_recognised() {
    let protocol = parse_protocol(PROTOCOL).ok().unwrap();
    assert!(is_protocol_ready(&protocol));
    let two_new_ids = r#"<protocol name="x"><interface name="a" version="1"><request name="r"><arg name="p" type="new_id" interface="b"/><arg name="q" type="new_id" interface="c"/></request></interface></protocol>"#;
    assert!(!is_protocol_ready(&parse_protocol(two_new_ids).ok().unwrap()));
    let untyped_object = r#"<protocol name="x"><interface name="a" version="1"><request name="r"><arg name="o" type="object"/></request></interface></protocol>"#;
    assert!(!is_protocol_ready(&parse_protocol(untyped_object).ok().unwrap()));
    let untyped_event_object = r#"<protocol name="x"><interface name="a" version="1"><event name="e"><arg name="n" type="new_id"/></event></interface></protocol>"#;
    assert!(!is_protocol_ready(&parse_protocol(untyped_event_object).ok().unwrap()));
    let untyped_object_in_event = r#"<protocol name="x"><interface name="a" version="1"><event name="e"><arg name="o" type="object"/></event></interface></protocol>"#;
    assert!(is_protocol_ready(&parse_protocol(untyped_object_in_event).ok().unwrap()));
}
