use wmpf_debugger::constants::{response_type_name, DebugMessageCategory, COMPRESS_ZLIB};
use wmpf_debugger::proto::{decode_message, decode_or_default_exec, encode_message, MsgType, ProtoValue};
use wmpf_debugger::wire::{parse_fields, WireValue};

#[test]
fn wire_fields_are_parsed() {
    let bytes = [0x08, 0x96, 0x01, 0x12, 0x02, b'h', b'i', 0x1d, 1, 2, 3, 4, 0x21, 1, 0, 0, 0, 0, 0, 0, 0];
    let fs = parse_fields(&bytes).unwrap();
    assert_eq!(fs.len(), 4);
    assert_eq!(fs[0].tag, 1);
    assert!(matches!(fs[0].value, WireValue::Varint(150)));
    assert_eq!(fs[1].tag, 2);
    assert!(matches!(&fs[1].value, WireValue::Bytes(b) if b == b"hi"));
    assert_eq!(fs[2].tag, 3);
    assert!(matches!(fs[2].value, WireValue::Fixed32(0x0403_0201)));
    assert_eq!(fs[3].tag, 4);
    assert!(matches!(fs[3].value, WireValue::Fixed64(1)));
}

#[test]
fn wire_refuses_broken_input() {
    assert!(parse_fields(&[0x08]).is_none());
    assert!(parse_fields(&[0x12, 0x05, 1]).is_none());
    assert!(parse_fields(&[0x00, 0x01]).is_none());
    assert!(parse_fields(&[0x0b]).is_none());
    assert!(parse_fields(&[]).unwrap().is_empty());
}

#[test]
fn message_encodes_and_decodes() {
    let vals = vec![
        ProtoValue::U32(7),
        ProtoValue::Str("x".to_string()),
        ProtoValue::Str(String::new()),
    ];
    let mut buf = vec![0xaa];
    encode_message(MsgType::ChromeDevtools, &vals, &mut buf);
    assert_eq!(buf, vec![0xaa, 0x08, 0x07, 0x12, 0x01, b'x']);
    let back = decode_message(MsgType::ChromeDevtools, &buf[1..]).unwrap();
    assert!(matches!(back[0], ProtoValue::U32(7)));
    assert!(matches!(&back[1], ProtoValue::Str(s) if s == "x"));
    assert!(matches!(&back[2], ProtoValue::Str(s) if s.is_empty()));
}

#[test]
fn last_scalar_wins_and_unknown_fields_are_skipped() {
    let back = decode_message(MsgType::Breakpoint, &[0x08, 0x01, 0x08, 0x00, 0x7a, 0x01, b'z']).unwrap();
    assert!(matches!(back[0], ProtoValue::Bool(false)));
}

#[test]
fn repeated_strings_collect_in_order() {
    let back = decode_message(
        MsgType::ObjMethod,
        &[0x12, 0x01, b'a', 0x0a, 0x01, b'm', 0x12, 0x01, b'b'],
    )
    .unwrap();
    assert!(matches!(&back[0], ProtoValue::Str(s) if s == "m"));
    match &back[1] {
        ProtoValue::Strs(v) => assert_eq!(v, &vec!["a".to_string(), "b".to_string()]),
        _ => panic!("expected repeated strings"),
    }
}

#[test]
fn bad_bodies_are_refused() {
    assert!(decode_message(MsgType::Ping, &[0x0a, 0x01, 0xff]).is_none());
    assert!(decode_message(MsgType::Ping, &[0x08, 0x01]).is_none());
    assert!(decode_message(MsgType::BaseResp, &[0x08, 0x80, 0x80, 0x80, 0x80, 0x80, 0x80, 0x80, 0x80, 0x80, 0x02]).is_none());
}

#[test]
fn int32_is_truncated_from_varint() {
    let back = decode_message(MsgType::BaseResp, &[0x08, 0x81, 0x80, 0x80, 0x80, 0x10]).unwrap();
    assert!(matches!(back[0], ProtoValue::I32(1)));
}

#[test]
fn defaults_where_decoding_fails() {
    let v = decode_or_default_exec(MsgType::Pong, &[0xff]);
    assert!(matches!(&v[0], ProtoValue::Str(s) if s.is_empty()));
    assert!(matches!(v[1], ProtoValue::U32(0)));
    assert!(matches!(&v[2], ProtoValue::Bytes(b) if b.is_empty()));
}

#[test]
fn category_names_roundtrip() {
    let all = [
        DebugMessageCategory::SetupContext,
        DebugMessageCategory::CallInterface,
        DebugMessageCategory::CallInterfaceResult,
        DebugMessageCategory::EvaluateJavascript,
        DebugMessageCategory::EvaluateJavascriptResult,
        DebugMessageCategory::Breakpoint,
        DebugMessageCategory::Ping,
        DebugMessageCategory::Pong,
        DebugMessageCategory::DomOp,
        DebugMessageCategory::DomEvent,
        DebugMessageCategory::NetworkDebugAPI,
        DebugMessageCategory::ChromeDevtools,
        DebugMessageCategory::ChromeDevtoolsResult,
        DebugMessageCategory::AddJsContext,
        DebugMessageCategory::RemoveJsContext,
        DebugMessageCategory::ConnectJsContext,
        DebugMessageCategory::CustomMessage,
    ];
    for c in all {
        assert_eq!(DebugMessageCategory::from_str(c.as_str()), Some(c));
    }
    assert_eq!(DebugMessageCategory::ChromeDevtoolsResult.as_str(), "chromeDevtoolsResult");
    assert_eq!(DebugMessageCategory::from_str("ChromeDevtools"), None);
    assert_eq!(COMPRESS_ZLIB, 1);
}

#[test]
fn response_names() {
    assert_eq!(response_type_name(1000), "MessageNotify");
    assert_eq!(response_type_name(1006), "MessageNotifyParallelly");
    assert_eq!(response_type_name(2006), "SendDebugMessageParallelly");
    assert_eq!(response_type_name(3002), "EventNotify");
    assert_eq!(response_type_name(3004), "Unknown");
}

#[test]
fn groups_are_skipped_whole() {
    let fs = parse_fields(&[0x0b, 0x10, 0x05, 0x0c, 0x18, 0x01]).unwrap();
    assert_eq!(fs.len(), 2);
    assert_eq!(fs[0].tag, 1);
    assert!(matches!(fs[0].value, WireValue::Group));
    assert_eq!(fs[1].tag, 3);
    assert!(matches!(fs[1].value, WireValue::Varint(1)));
    assert!(parse_fields(&[0x0b, 0x14]).is_none());
    assert!(parse_fields(&[0x0c]).is_none());
}

#[test]
fn unknown_group_field_is_ignored_but_known_one_is_refused() {
    let back = decode_message(MsgType::Breakpoint, &[0x2b, 0x08, 0x00, 0x2c, 0x08, 0x01]).unwrap();
    assert!(matches!(back[0], ProtoValue::Bool(true)));
    assert!(decode_message(MsgType::Breakpoint, &[0x0b, 0x0c]).is_none());
}
