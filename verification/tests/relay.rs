use wmpf_debugger::codex::DebugMessage;
use wmpf_debugger::json::JsonValue;
use wmpf_debugger::proto::{decode_message, MsgType, ProtoValue};
use wmpf_debugger::relay::{handle_miniapp_frame, wrap_cdp_for_miniapp, DevtoolsLink, MiniappInbound};

fn frame(category: &str, data: Vec<u8>) -> Vec<u8> {
    DebugMessage {
        seq: 4,
        after: 0,
        category: category.to_string(),
        data,
        compress_algo: 0,
        original_size: 0,
    }
    .encode()
}

#[test]
fn devtools_message_is_framed() {
    let out = wrap_cdp_for_miniapp("abc", 1_234_567_891, 1);
    let mut expected = vec![0x08, 0x01, 0x1a, 14];
    expected.extend_from_slice(b"chromeDevtools");
    expected.extend_from_slice(&[0x22, 0x07, 0x08, 91, 0x12, 0x03, b'a', b'b', b'c']);
    assert_eq!(out, expected);
}

#[test]
fn devtools_frame_decodes_back() {
    let out = wrap_cdp_for_miniapp("{\"id\":1}", 300, 77);
    let m = DebugMessage::decode(&out).unwrap();
    assert_eq!(m.seq, 77);
    assert_eq!(m.category, "chromeDevtools");
    assert_eq!(m.compress_algo, 0);
    let mut body = vec![0x12, 8];
    body.extend_from_slice(b"{\"id\":1}");
    assert_eq!(m.data, body);
}

#[test]
fn result_payload_is_forwarded() {
    let body = vec![0x08, 0x07, 0x12, 0x02, b'{', b'}', 0x1a, 0x01, b'c'];
    match handle_miniapp_frame(&frame("chromeDevtoolsResult", body)) {
        MiniappInbound::Message { unwrapped, forward } => {
            assert_eq!(forward, Some("{}".to_string()));
            assert!(matches!(unwrapped, JsonValue::Object(_)));
        }
        MiniappInbound::Malformed => panic!("expected a message"),
    }
}

#[test]
fn other_categories_are_not_forwarded() {
    match handle_miniapp_frame(&frame("ping", vec![0x0a, 0x01, b'i'])) {
        MiniappInbound::Message { forward, .. } => assert_eq!(forward, None),
        MiniappInbound::Malformed => panic!("expected a message"),
    }
    match handle_miniapp_frame(&frame("unknown", vec![])) {
        MiniappInbound::Message { unwrapped, forward } => {
            assert!(matches!(unwrapped, JsonValue::Null));
            assert_eq!(forward, None);
        }
        MiniappInbound::Malformed => panic!("expected a message"),
    }
}

#[test]
fn undecodable_frame_is_malformed() {
    assert!(matches!(handle_miniapp_frame(&[0x08]), MiniappInbound::Malformed));
    assert!(matches!(handle_miniapp_frame(&[0x1a, 0x02, 0xff, 0xfe]), MiniappInbound::Malformed));
}

#[test]
fn devtools_payload_arrives_whole() {
    let out = wrap_cdp_for_miniapp("{\"method\":\"Runtime.enable\"} é", 1_000_000_042, 9);
    let m = DebugMessage::decode(&out).unwrap();
    assert_eq!(m.seq, 9);
    assert_eq!(m.after, 0);
    assert_eq!(m.original_size, 0);
    let body = decode_message(MsgType::ChromeDevtools, &m.data).unwrap();
    assert!(matches!(body[0], ProtoValue::U32(42)));
    assert!(matches!(&body[1], ProtoValue::Str(s) if s == "{\"method\":\"Runtime.enable\"} é"));
    assert!(matches!(&body[2], ProtoValue::Str(s) if s.is_empty()));
}

#[test]
fn link_numbers_frames_from_one() {
    let mut link = DevtoolsLink::new();
    for k in 1..=3u32 {
        let frame = link.frame("x", 5);
        assert_eq!(frame, wrap_cdp_for_miniapp("x", 5, k));
        assert_eq!(DebugMessage::decode(&frame).unwrap().seq, k);
    }
    let mut other = DevtoolsLink::new();
    assert_eq!(DebugMessage::decode(&other.frame("y", 0)).unwrap().seq, 1);
}
