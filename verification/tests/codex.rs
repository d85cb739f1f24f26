use std::io::{Read, Write};

use wmpf_debugger::codex::{
    buffer_to_hex, decode_category_data, request_type_to_cmd, unwrap_debug_message_data,
    unwrap_proto_to_data_format, wrap_debug_message_data, wrap_outgoing_to_proto, DebugMessage,
};
use wmpf_debugger::constants::DebugMessageCategory;
use wmpf_debugger::json::{JsonNumber, JsonValue};

fn show(v: &JsonValue) -> String {
    match v {
        JsonValue::Null => "null".to_string(),
        JsonValue::Bool(b) => b.to_string(),
        JsonValue::Number(JsonNumber::PosInt(n)) => n.to_string(),
        JsonValue::Number(JsonNumber::NegInt(n)) => n.to_string(),
        JsonValue::Number(JsonNumber::Float(bits)) => f64::from_bits(*bits).to_string(),
        JsonValue::Number(JsonNumber::Float32(bits)) => f32::from_bits(*bits).to_string(),
        JsonValue::Str(s) => format!("{:?}", s),
        JsonValue::Array(items) => {
            let parts: Vec<String> = items.iter().map(show).collect();
            format!("[{}]", parts.join(","))
        }
        JsonValue::Object(pairs) => {
            let mut parts: Vec<String> =
                pairs.iter().map(|(k, v)| format!("{:?}:{}", k, show(v))).collect();
            parts.sort();
            format!("{{{}}}", parts.join(","))
        }
    }
}

fn obj(pairs: Vec<(&str, JsonValue)>) -> JsonValue {
    JsonValue::Object(pairs.into_iter().map(|(k, v)| (k.to_string(), v)).collect())
}

fn s(v: &str) -> JsonValue {
    JsonValue::Str(v.to_string())
}

fn n(v: u64) -> JsonValue {
    JsonValue::Number(JsonNumber::PosInt(v))
}

#[test]
fn hex_of_bytes() {
    assert_eq!(buffer_to_hex(&[0x00, 0x0f, 0xab, 0xff, 0x10]), "000fabff10");
    assert_eq!(buffer_to_hex(&[]), "");
}

#[test]
fn request_types_map_to_commands() {
    assert_eq!(request_type_to_cmd(2001), 1001);
    assert_eq!(request_type_to_cmd(2002), 1002);
    assert_eq!(request_type_to_cmd(3001), 3001);
    assert_eq!(request_type_to_cmd(3002), 3002);
    assert_eq!(request_type_to_cmd(3003), 3003);
    assert_eq!(request_type_to_cmd(2003), 1003);
    assert_eq!(request_type_to_cmd(2000), 1000);
    assert_eq!(request_type_to_cmd(2006), 1006);
    assert_eq!(request_type_to_cmd(2004), 1004);
    assert_eq!(request_type_to_cmd(1000), 2000);
    assert_eq!(request_type_to_cmd(1006), 2006);
    assert_eq!(request_type_to_cmd(2005), 1005);
    assert_eq!(request_type_to_cmd(42), -1);
}

#[test]
fn wrap_chrome_devtools_body() {
    let data = obj(vec![("op_id", n(5)), ("payload", s("abc")), ("jscontext_id", s(""))]);
    let r = wrap_debug_message_data(&data, &DebugMessageCategory::ChromeDevtools, 0);
    assert_eq!(r.buffer, vec![0x08, 0x05, 0x12, 0x03, b'a', b'b', b'c']);
    assert_eq!(r.original_size, 0);
}

#[test]
fn wrap_op_id_is_cut_to_32_bits() {
    let data = obj(vec![("op_id", n(0x1_0000_0001))]);
    let r = wrap_debug_message_data(&data, &DebugMessageCategory::ChromeDevtools, 0);
    assert_eq!(r.buffer, vec![0x08, 0x01]);
}

#[test]
fn wrap_call_interface_with_args() {
    let data = obj(vec![
        ("name", s("wx")),
        ("method", s("m")),
        ("args", JsonValue::Array(vec![s("a"), n(3), s("")])),
        ("call_id", s("7")),
    ]);
    let r = wrap_debug_message_data(&data, &DebugMessageCategory::CallInterface, 0);
    assert_eq!(
        r.buffer,
        vec![
            0x0a, 0x02, b'w', b'x', 0x12, 0x01, b'm', 0x1a, 0x01, b'a', 0x1a, 0x00, 0x1a, 0x00, 0x22,
            0x01, b'7'
        ]
    );
}

#[test]
fn wrap_breakpoint_and_ping() {
    let hit = obj(vec![("is_hit", JsonValue::Bool(true))]);
    let r = wrap_debug_message_data(&hit, &DebugMessageCategory::Breakpoint, 0);
    assert_eq!(r.buffer, vec![0x08, 0x01]);
    let not_bool = obj(vec![("is_hit", n(1))]);
    let r = wrap_debug_message_data(&not_bool, &DebugMessageCategory::Breakpoint, 0);
    assert!(r.buffer.is_empty());
    let ping = obj(vec![("ping_id", s("p")), ("payload", s("é"))]);
    let r = wrap_debug_message_data(&ping, &DebugMessageCategory::Ping, 0);
    assert_eq!(r.buffer, vec![0x0a, 0x01, b'p', 0x12, 0x02, 0xc3, 0xa9]);
}

#[test]
fn wrap_unsupported_category_is_empty() {
    let data = obj(vec![("ping_id", s("p"))]);
    let r = wrap_debug_message_data(&data, &DebugMessageCategory::Pong, 1);
    assert!(r.buffer.is_empty());
    assert_eq!(r.original_size, 0);
}

#[test]
fn wrap_non_object_reads_defaults() {
    let r = wrap_debug_message_data(&s("x"), &DebugMessageCategory::DomOp, 1);
    assert!(r.buffer.is_empty());
    assert_eq!(r.original_size, 0);
}

#[test]
fn wrap_compressed_body_inflates_back() {
    let data = obj(vec![("params", s("hello hello hello")), ("webview_id", s("w1"))]);
    let plain = wrap_debug_message_data(&data, &DebugMessageCategory::DomEvent, 0);
    let packed = wrap_debug_message_data(&data, &DebugMessageCategory::DomEvent, 1);
    assert_eq!(packed.original_size as usize, plain.buffer.len());
    let mut out = Vec::new();
    flate2::read::ZlibDecoder::new(packed.buffer.as_slice())
        .read_to_end(&mut out)
        .unwrap();
    assert_eq!(out, plain.buffer);
}

#[test]
fn unwrap_chrome_devtools_result() {
    let body = vec![0x08, 0x07, 0x12, 0x02, b'{', b'}', 0x1a, 0x01, b'c'];
    let msg = DebugMessage {
        seq: 3,
        after: 9,
        category: "chromeDevtoolsResult".to_string(),
        data: body,
        compress_algo: 0,
        original_size: 0,
    };
    let v = unwrap_debug_message_data(&msg);
    assert_eq!(
        show(&v),
        "{\"category\":\"chromeDevtoolsResult\",\"compress_algo\":0,\"data\":{\"jscontext_id\":\"c\",\"op_id\":7,\"payload\":\"{}\"},\"delay\":9,\"original_size\":0,\"seq\":3}"
    );
}

#[test]
fn unwrap_unknown_category_is_null() {
    let msg = DebugMessage {
        seq: 1,
        after: 0,
        category: "nope".to_string(),
        data: vec![],
        compress_algo: 0,
        original_size: 0,
    };
    assert!(matches!(unwrap_debug_message_data(&msg), JsonValue::Null));
}

#[test]
fn unwrap_zlib_body() {
    let body = vec![0x0a, 0x03, b'r', b'e', b't', 0x12, 0x01, b'e'];
    let mut enc = flate2::write::ZlibEncoder::new(Vec::new(), flate2::Compression::default());
    enc.write_all(&body).unwrap();
    let packed = enc.finish().unwrap();
    let msg = DebugMessage {
        seq: 1,
        after: 0,
        category: "evaluateJavascriptResult".to_string(),
        data: packed,
        compress_algo: 1,
        original_size: body.len() as u32,
    };
    let v = unwrap_debug_message_data(&msg);
    match v {
        JsonValue::Object(pairs) => {
            let data = pairs.iter().find(|(k, _)| k == "data").unwrap();
            assert_eq!(show(&data.1), "{\"evaluate_id\":\"e\",\"ret\":\"ret\"}");
        }
        _ => panic!("expected an object"),
    }
}

#[test]
fn category_decode_failure_gives_defaults() {
    let v = decode_category_data(&DebugMessageCategory::Breakpoint, &[0x0a, 0x00]);
    assert_eq!(show(&v), "{\"is_hit\":0}");
    let v = decode_category_data(&DebugMessageCategory::Breakpoint, &[0x08, 0x02]);
    assert_eq!(show(&v), "{\"is_hit\":1}");
    let v = decode_category_data(&DebugMessageCategory::RemoveJsContext, &[0x0a, 0x02, 0xff, 0xfe]);
    assert_eq!(show(&v), "{\"jscontext_id\":\"\"}");
}

#[test]
fn pong_payload_is_read_lossily() {
    let v = decode_category_data(
        &DebugMessageCategory::Pong,
        &[0x0a, 0x01, b'i', 0x10, 0x04, 0x1a, 0x02, b'o', 0xff],
    );
    assert_eq!(
        show(&v),
        "{\"network_type\":4,\"payload\":\"o\u{fffd}\",\"ping_id\":\"i\"}"
    );
}

#[test]
fn setup_context_nests_and_defaults() {
    let method = vec![0x0a, 0x01, b'f', 0x12, 0x01, b'x', 0x12, 0x01, b'y'];
    let mut ri = vec![0x0a, 0x02, b'w', b'x', 0x12, method.len() as u8];
    ri.extend_from_slice(&method);
    let mut body = vec![0x0a, ri.len() as u8];
    body.extend_from_slice(&ri);
    body.extend_from_slice(&[0x12, 0x01, b'c', 0x30, 0x01]);
    let v = decode_category_data(&DebugMessageCategory::SetupContext, &body);
    assert_eq!(
        show(&v),
        "{\"configure_js\":\"c\",\"device_info\":{\"device_model\":\"\",\"device_name\":\"\",\"os\":\"\",\"pixel_ratio\":0,\"publib\":\"\",\"screen_width\":0,\"user_agent\":\"\",\"wechat_version\":\"\"},\"public_js_md5\":\"\",\"register_interface\":{\"obj_methods\":[{\"method_args\":[\"x\",\"y\"],\"method_name\":\"f\"}],\"obj_name\":\"wx\"},\"support_compress_algo\":1,\"three_js_md5\":\"\"}"
    );
}

#[test]
fn outgoing_ack_frame() {
    let frame = wrap_outgoing_to_proto(&JsonValue::Null, 1006, "u1");
    assert_eq!(
        frame,
        vec![0x08, 0xd6, 0x0f, 0x12, 0x02, b'u', b'1', 0x1a, 0x02, 0x0a, 0x00]
    );
    assert!(wrap_outgoing_to_proto(&JsonValue::Null, 2000, "u1").is_empty());
}

#[test]
fn data_format_send_ack_reply() {
    let v = unwrap_proto_to_data_format(&[0x08, 0xd0, 0x0f, 0x12, 0x01, b'u', 0x1a, 0x04, 0x0a, 0x00, 0x10, 0x05]);
    assert_eq!(
        show(&v),
        "{\"_comment\":\"SendDebugMessage\",\"cmd\":2000,\"data\":{\"base_response\":{\"errcode\":0,\"errmsg\":\"\"},\"send_ack\":5},\"uuid\":\"u\"}"
    );
}

#[test]
fn data_format_absent_base_response_is_null() {
    let v = unwrap_proto_to_data_format(&[0x08, 0xd3, 0x0f]);
    assert_eq!(
        show(&v),
        "{\"_comment\":\"JoinRoom\",\"cmd\":2003,\"data\":{\"base_response\":null},\"uuid\":\"\"}"
    );
}

#[test]
fn data_format_negative_errcode_and_room_defaults() {
    let base = [0x08, 0xff, 0xff, 0xff, 0xff, 0xff, 0xff, 0xff, 0xff, 0xff, 0x01];
    let mut resp = vec![0x0a, base.len() as u8];
    resp.extend_from_slice(&base);
    let mut frame = vec![0x08, 0xd2, 0x0f, 0x1a, resp.len() as u8];
    frame.extend_from_slice(&resp);
    let v = unwrap_proto_to_data_format(&frame);
    assert_eq!(
        show(&v),
        "{\"_comment\":\"Login\",\"cmd\":2002,\"data\":{\"base_response\":{\"errcode\":-1,\"errmsg\":\"\"},\"room_info\":{\"dev_conn_status\":0,\"join_room\":0,\"original_md5\":\"\",\"room_id\":\"\",\"room_status\":0,\"wx_conn_status\":0}},\"uuid\":\"\"}"
    );
}

#[test]
fn data_format_notify_unwraps_messages() {
    let dm = DebugMessage {
        seq: 2,
        after: 0,
        category: "breakpoint".to_string(),
        data: vec![0x08, 0x01],
        compress_algo: 0,
        original_size: 0,
    }
    .encode();
    let mut notify = vec![0x0a, dm.len() as u8];
    notify.extend_from_slice(&dm);
    let mut frame = vec![0x08, 0xe8, 0x07, 0x1a, notify.len() as u8];
    frame.extend_from_slice(&notify);
    let v = unwrap_proto_to_data_format(&frame);
    assert_eq!(
        show(&v),
        "{\"_comment\":\"MessageNotify\",\"cmd\":1000,\"data\":{\"debug_message\":[{\"category\":\"breakpoint\",\"compress_algo\":0,\"data\":{\"is_hit\":1},\"delay\":0,\"original_size\":0,\"seq\":2}]},\"uuid\":\"\"}"
    );
}

#[test]
fn data_format_unknown_cmd_and_error() {
    let v = unwrap_proto_to_data_format(&[0x08, 0x07]);
    assert_eq!(
        show(&v),
        "{\"_comment\":\"Unknown\",\"cmd\":7,\"data\":null,\"uuid\":\"\"}"
    );
    let v = unwrap_proto_to_data_format(&[0x08]);
    assert_eq!(
        show(&v),
        "{\"error\":\"failed to decode Protobuf message: WaRemoteDebugDataFormat.cmd: invalid varint\"}"
    );
}

#[test]
fn debug_message_roundtrip_bytes() {
    let m = DebugMessage {
        seq: 300,
        after: 1,
        category: "ping".to_string(),
        data: vec![1, 2, 3],
        compress_algo: 0,
        original_size: 0,
    };
    let bytes = m.encode();
    assert_eq!(
        bytes,
        vec![0x08, 0xac, 0x02, 0x10, 0x01, 0x1a, 0x04, b'p', b'i', b'n', b'g', 0x22, 0x03, 1, 2, 3]
    );
    let back = DebugMessage::decode(&bytes).unwrap();
    assert_eq!(back.seq, 300);
    assert_eq!(back.after, 1);
    assert_eq!(back.category, "ping");
    assert_eq!(back.data, vec![1, 2, 3]);
    assert!(DebugMessage::decode(&[0x1a, 0x01, 0xff]).is_none());
    assert!(DebugMessage::decode(&[0x08, 0x01, 0x0a, 0x00]).is_none());
}

#[test]
fn wrapped_body_unwraps_to_its_fields() {
    let data = obj(vec![("method", s("m")), ("payload", s("p")), ("raw", s("")), ("extra", n(1))]);
    let r = wrap_debug_message_data(&data, &DebugMessageCategory::CustomMessage, 0);
    let v = decode_category_data(&DebugMessageCategory::CustomMessage, &r.buffer);
    assert_eq!(show(&v), "{\"method\":\"m\",\"payload\":\"p\",\"raw\":\"\"}");
}

fn error_of(frame: &[u8]) -> String {
    match unwrap_proto_to_data_format(frame) {
        JsonValue::Object(pairs) => {
            assert_eq!(pairs.len(), 1);
            assert_eq!(pairs[0].0, "error");
            match &pairs[0].1 {
                JsonValue::Str(s) => s.clone(),
                _ => panic!("expected an error text"),
            }
        }
        _ => panic!("expected an object"),
    }
}

#[test]
fn data_format_errors_carry_their_cause() {
    assert_eq!(error_of(&[0xff]), "failed to decode Protobuf message: invalid varint");
    assert_eq!(error_of(&[0x00]), "failed to decode Protobuf message: invalid tag value: 0");
    assert_eq!(
        error_of(&[0x0a, 0x00]),
        "failed to decode Protobuf message: WaRemoteDebugDataFormat.cmd: invalid wire type: LengthDelimited (expected Varint)"
    );
    assert_eq!(
        error_of(&[0x08, 0x01, 0x12, 0x01, 0xff]),
        "failed to decode Protobuf message: WaRemoteDebugDataFormat.uuid: invalid string value: data is not UTF-8 encoded"
    );
    assert_eq!(
        error_of(&[0x1a, 0x05, 0x01]),
        "failed to decode Protobuf message: WaRemoteDebugDataFormat.data: buffer underflow"
    );
    assert_eq!(error_of(&[0x24]), "failed to decode Protobuf message: unexpected end group tag");
    assert_eq!(error_of(&[0x0e]), "failed to decode Protobuf message: invalid wire type value: 6");
    assert_eq!(
        error_of(&[0x80, 0x80, 0x80, 0x80, 0x80, 0x01]),
        "failed to decode Protobuf message: invalid key value: 34359738368"
    );
    assert_eq!(error_of(&[0x25, 0x01]), "failed to decode Protobuf message: buffer underflow");
    assert_eq!(error_of(&[0x22, 0x80]), "failed to decode Protobuf message: invalid varint");
    assert_eq!(
        error_of(&[0x15, 0x00, 0x00, 0x00, 0x00]),
        "failed to decode Protobuf message: WaRemoteDebugDataFormat.uuid: invalid wire type: ThirtyTwoBit (expected LengthDelimited)"
    );
}

#[test]
fn data_format_skips_unknown_fields_and_keeps_last_values() {
    let v = unwrap_proto_to_data_format(&[0x08, 0x01, 0x28, 0x09, 0x12, 0x01, b'a', 0x08, 0x07, 0x12, 0x01, b'b']);
    assert_eq!(
        show(&v),
        "{\"_comment\":\"Unknown\",\"cmd\":7,\"data\":null,\"uuid\":\"b\"}"
    );
}

#[test]
fn compressed_body_unwraps_to_its_fields() {
    let d = obj(vec![("op_id", n(7)), ("payload", s("hello")), ("jscontext_id", s("ctx"))]);
    let w = wrap_debug_message_data(&d, &DebugMessageCategory::ChromeDevtools, 1);
    assert!(w.original_size > 0);
    let msg = DebugMessage {
        seq: 1,
        after: 0,
        category: "chromeDevtools".to_string(),
        data: w.buffer,
        compress_algo: 1,
        original_size: w.original_size,
    };
    match unwrap_debug_message_data(&msg) {
        JsonValue::Object(pairs) => {
            let data = pairs.iter().find(|(k, _)| k == "data").unwrap();
            assert_eq!(show(&data.1), "{\"jscontext_id\":\"ctx\",\"op_id\":7,\"payload\":\"hello\"}");
        }
        _ => panic!("expected an object"),
    }
}

#[test]
fn ping_payload_comes_back_as_text() {
    let d = obj(vec![("ping_id", s("p1")), ("payload", s("héllo"))]);
    let w = wrap_debug_message_data(&d, &DebugMessageCategory::Ping, 0);
    let v = decode_category_data(&DebugMessageCategory::Ping, &w.buffer);
    assert_eq!(show(&v), "{\"payload\":\"héllo\",\"ping_id\":\"p1\"}");
}

#[test]
fn signed_but_positive_op_id_is_read() {
    let d = obj(vec![("op_id", JsonValue::Number(JsonNumber::NegInt(5)))]);
    let r = wrap_debug_message_data(&d, &DebugMessageCategory::ChromeDevtools, 0);
    assert_eq!(r.buffer, vec![0x08, 0x05]);
    let d = obj(vec![("op_id", JsonValue::Number(JsonNumber::NegInt(-5)))]);
    let r = wrap_debug_message_data(&d, &DebugMessageCategory::ChromeDevtools, 0);
    assert!(r.buffer.is_empty());
}
