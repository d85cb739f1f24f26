//! Wrapping and unwrapping of debug messages: JSON objects to and from the
//! protobuf bodies of each category, zlib compression of bodies, and the
//! frames that the remote-debug server exchanges.

use vstd::prelude::*;
use vstd::utf8::*;
use crate::wire::{
    bytes_merge_error, decode_error_prefix, decode_key_error, key_decode, lemma_key_bounds, lemma_leb_bounds,
    lemma_value_bounds, merge_bytes, merge_string, merge_u32, skip_field_result, string_merge_error,
    skip_error, take_key, take_skip, uint32_merge_error, value_decode, varint_decode, WireKind, WireVal,
};
use crate::constants::{
    category_name, category_named, response_type_name, response_type_name_spec,
    DebugMessageCategory, COMPRESS_ZLIB,
};
use crate::json::{
    bool_or_false, get_bool, get_str, get_strs, get_u64, json_pairs_view, json_seq_view, json_view,
    lemma_json_pairs_view, lemma_json_seq_view, obj_get, str_or_empty, strs_or_empty, text,
    u64_or_zero, object_keys, JsonNumber, JsonV, JsonValue,
};
use crate::proto::{
    decode_message, decode_spec, encode_message, encode_spec, lemma_values_view, schema,
    string_from_utf8, value_view, values_view, FieldKind, MsgType, ProtoValue, Val,
};

verus! {

/// The lower-case hexadecimal digit of `d` (below 16).
pub open spec fn hex_digit(d: nat) -> char {
    if d < 10 {
        (48 + d) as char
    } else {
        (87 + d) as char
    }
}

/// Two lower-case hexadecimal digits per byte, most significant first.
pub open spec fn hex_string(b: Seq<u8>) -> Seq<char>
    decreases b.len(),
{
    if b.len() == 0 {
        Seq::empty()
    } else {
        hex_string(b.drop_last()) + seq![
            hex_digit((b.last() / 16) as nat),
            hex_digit((b.last() % 16) as nat),
        ]
    }
}

proof fn lemma_hex_digit(d: nat)
    requires
        d < 16,
    ensures
        '\0' <= hex_digit(d) <= '\u{7f}',
        hex_digit(d) as u8 == if d < 10 { 48 + d } else { 87 + d },
{
}

fn hex_digit_byte(d: u8) -> (r: u8)
    requires
        d < 16,
    ensures
        r == hex_digit(d as nat) as u8,
        r < 128,
{
    proof {
        lemma_hex_digit(d as nat);
    }
    if d < 10 {
        48 + d
    } else {
        87 + d
    }
}

/// The bytes of `buffer` in lower-case hexadecimal, two digits per byte.
pub fn buffer_to_hex(buffer: &[u8]) -> (r: String)
    ensures
        r@ == hex_string(buffer@),
{
    let mut bytes: Vec<u8> = Vec::new();
    let ghost mut chars: Seq<char> = Seq::empty();
    let mut i: usize = 0;
    while i < buffer.len()
        invariant
            i <= buffer@.len(),
            chars == hex_string(buffer@.take(i as int)),
            bytes@.len() == chars.len(),
            forall|j: int| 0 <= j < chars.len() ==> #[trigger] bytes@[j] == chars[j] as u8,
            is_ascii_chars(chars),
        decreases buffer@.len() - i,
    {
        let b = buffer[i];
        let hi = hex_digit_byte(b / 16);
        let lo = hex_digit_byte(b % 16);
        bytes.push(hi);
        bytes.push(lo);
        proof {
            assert(buffer@.take(i as int + 1).drop_last() =~= buffer@.take(i as int));
            lemma_hex_digit((b / 16) as nat);
            lemma_hex_digit((b % 16) as nat);
            let added = seq![hex_digit((b / 16) as nat), hex_digit((b % 16) as nat)];
            assert forall|j: int| 0 <= j < (chars + added).len() implies '\0' <= #[trigger] (chars + added)[j] <= '\u{7f}' by {
                if j < chars.len() {
                    assert((chars + added)[j] == chars[j]);
                }
            }
            chars = chars + added;
        }
        i = i + 1;
    }
    assert(buffer@.take(i as int) =~= buffer@);
    proof {
        assert(is_ascii_chars(chars));
        is_ascii_chars_encode_utf8(chars);
        assert(bytes@ =~= encode_utf8(chars));
        encode_utf8_valid_utf8(chars);
        encode_utf8_decode_utf8(chars);
    }
    match string_from_utf8(bytes) {
        Some(s) => s,
        None => String::new(),
    }
}

/// What zlib decompression gives for `data` (the whole stream, or as much of
/// it as precedes an error).
pub uninterp spec fn zlib_inflated(data: Seq<u8>) -> Seq<u8>;

/// What zlib compression at the default level gives for `data`.
pub uninterp spec fn zlib_compressed(data: Seq<u8>) -> Seq<u8>;

/// Decompresses a zlib stream.
///
/// Calls `flate2::read::ZlibDecoder` with `read_to_end`; the contract names
/// the output, which depends on the input alone. Where the stream is
/// malformed the error is dropped and the bytes read before it are kept.
#[verifier::external_body]
fn zlib_decompress(data: &[u8]) -> (r: Vec<u8>)
    ensures
        r@ == zlib_inflated(data@),
{
    let mut decoder = flate2::read::ZlibDecoder::new(data);
    let mut decompressed = Vec::new();
    let _ = std::io::Read::read_to_end(&mut decoder, &mut decompressed);
    decompressed
}

/// Compresses into a zlib stream at the default level.
///
/// Calls `flate2::write::ZlibEncoder` over a `Vec`, `write_all` and
/// `finish`; the contract names the output, which depends on the input
/// alone, and states what zlib promises: the stream is not empty (it starts
/// with a header) and inflating it gives the input back.
#[verifier::external_body]
fn zlib_compress(data: &[u8]) -> (r: Vec<u8>)
    ensures
        r@ == zlib_compressed(data@),
        r@.len() > 0,
        zlib_inflated(r@) == data@,
{
    let mut encoder = flate2::write::ZlibEncoder::new(Vec::new(), flate2::Compression::default());
    let _ = std::io::Write::write_all(&mut encoder, data);
    encoder.finish().unwrap_or_default()
}

/// What `String::from_utf8_lossy` gives for `b`.
pub uninterp spec fn utf8_lossy(b: Seq<u8>) -> Seq<char>;

/// Bytes read as text: the characters they encode where they are valid
/// UTF-8, otherwise with each malformed sequence replaced by U+FFFD.
pub open spec fn lossy_text(b: Seq<u8>) -> Seq<char> {
    if valid_utf8(b) {
        decode_utf8(b)
    } else {
        utf8_lossy(b)
    }
}

/// Reads bytes as UTF-8, each malformed sequence replaced by U+FFFD.
///
/// Calls `String::from_utf8_lossy`; the contract names its result and, as
/// its documentation says, takes valid UTF-8 to come back unchanged.
#[verifier::external_body]
fn bytes_to_text_lossy(b: &[u8]) -> (r: String)
    ensures
        r@ == utf8_lossy(b@),
        valid_utf8(b@) ==> r@ == decode_utf8(b@),
{
    String::from_utf8_lossy(b).into_owned()
}

/// The JSON key of each field of a message, in table order.
pub open spec fn json_keys(t: MsgType) -> Seq<Seq<char>> {
    match t {
        MsgType::DebugMessage => seq!["seq"@, "delay"@, "category"@, "data"@, "compress_algo"@, "original_size"@],
        MsgType::DataFormat => seq!["cmd"@, "uuid"@, "data"@],
        MsgType::MessageNotify => seq!["debug_message"@],
        MsgType::BaseResp => seq!["errcode"@, "errmsg"@],
        MsgType::SendDebugMessageResp => seq!["base_response"@, "send_ack"@],
        MsgType::DevLoginResp => seq!["base_response"@, "room_info"@],
        MsgType::RoomInfo => seq!["join_room"@, "original_md5"@, "room_status"@, "wx_conn_status"@, "dev_conn_status"@, "room_id"@],
        MsgType::DevJoinRoomResp => seq!["base_response"@],
        MsgType::DevHeartBeatResp => seq!["base_response"@],
        MsgType::DevQuitRoomResp => seq!["base_response"@],
        MsgType::NewSendDebugMessageResp => seq!["base_response"@, "max_ack"@, "min_ack"@],
        MsgType::DevSyncMessageResp => seq!["base_response"@, "debug_message"@, "send_ack"@],
        MsgType::EventNotify => seq!["base_response"@],
        MsgType::Breakpoint => seq!["is_hit"@],
        MsgType::CallInterface => seq!["name"@, "method"@, "args"@, "call_id"@],
        MsgType::CallInterfaceResult => seq!["ret"@, "call_id"@, "debug_info"@],
        MsgType::EvaluateJavascript => seq!["script"@, "evaluate_id"@, "debug_info"@],
        MsgType::EvaluateJavascriptResult => seq!["ret"@, "evaluate_id"@],
        MsgType::Ping => seq!["ping_id"@, "payload"@],
        MsgType::Pong => seq!["ping_id"@, "network_type"@, "payload"@],
        MsgType::SetupContext => seq!["register_interface"@, "configure_js"@, "public_js_md5"@, "three_js_md5"@, "device_info"@, "support_compress_algo"@],
        MsgType::RegisterInterface => seq!["obj_name"@, "obj_methods"@],
        MsgType::ObjMethod => seq!["method_name"@, "method_args"@],
        MsgType::DeviceInfo => seq!["device_name"@, "device_model"@, "os"@, "wechat_version"@, "pixel_ratio"@, "screen_width"@, "publib"@, "user_agent"@],
        MsgType::DomOp => seq!["params"@, "webview_id"@],
        MsgType::DomEvent => seq!["params"@, "webview_id"@],
        MsgType::NetworkDebugApi => seq!["api_name"@, "task_id"@, "request_headers"@, "timestamp"@],
        MsgType::ChromeDevtools => seq!["op_id"@, "payload"@, "jscontext_id"@],
        MsgType::ChromeDevtoolsResult => seq!["op_id"@, "payload"@, "jscontext_id"@],
        MsgType::AddJsContext => seq!["jscontext_id"@, "jscontext_name"@],
        MsgType::RemoveJsContext => seq!["jscontext_id"@],
        MsgType::ConnectJsContext => seq!["jscontext_id"@],
        MsgType::CustomMessage => seq!["method"@, "payload"@, "raw"@],
    }
}

/// The JSON key of each field of a message, in table order.
fn json_keys_of(t: MsgType) -> (r: Vec<&'static str>)
    ensures
        r@.len() == json_keys(t).len(),
        forall|i: int| 0 <= i < r@.len() ==> (#[trigger] r@[i])@ == json_keys(t)[i],
{
    let r = match t {
        MsgType::DebugMessage => vec!["seq", "delay", "category", "data", "compress_algo", "original_size"],
        MsgType::DataFormat => vec!["cmd", "uuid", "data"],
        MsgType::MessageNotify => vec!["debug_message"],
        MsgType::BaseResp => vec!["errcode", "errmsg"],
        MsgType::SendDebugMessageResp => vec!["base_response", "send_ack"],
        MsgType::DevLoginResp => vec!["base_response", "room_info"],
        MsgType::RoomInfo => vec!["join_room", "original_md5", "room_status", "wx_conn_status", "dev_conn_status", "room_id"],
        MsgType::DevJoinRoomResp => vec!["base_response"],
        MsgType::DevHeartBeatResp => vec!["base_response"],
        MsgType::DevQuitRoomResp => vec!["base_response"],
        MsgType::NewSendDebugMessageResp => vec!["base_response", "max_ack", "min_ack"],
        MsgType::DevSyncMessageResp => vec!["base_response", "debug_message", "send_ack"],
        MsgType::EventNotify => vec!["base_response"],
        MsgType::Breakpoint => vec!["is_hit"],
        MsgType::CallInterface => vec!["name", "method", "args", "call_id"],
        MsgType::CallInterfaceResult => vec!["ret", "call_id", "debug_info"],
        MsgType::EvaluateJavascript => vec!["script", "evaluate_id", "debug_info"],
        MsgType::EvaluateJavascriptResult => vec!["ret", "evaluate_id"],
        MsgType::Ping => vec!["ping_id", "payload"],
        MsgType::Pong => vec!["ping_id", "network_type", "payload"],
        MsgType::SetupContext => vec!["register_interface", "configure_js", "public_js_md5", "three_js_md5", "device_info", "support_compress_algo"],
        MsgType::RegisterInterface => vec!["obj_name", "obj_methods"],
        MsgType::ObjMethod => vec!["method_name", "method_args"],
        MsgType::DeviceInfo => vec!["device_name", "device_model", "os", "wechat_version", "pixel_ratio", "screen_width", "publib", "user_agent"],
        MsgType::DomOp => vec!["params", "webview_id"],
        MsgType::DomEvent => vec!["params", "webview_id"],
        MsgType::NetworkDebugApi => vec!["api_name", "task_id", "request_headers", "timestamp"],
        MsgType::ChromeDevtools => vec!["op_id", "payload", "jscontext_id"],
        MsgType::ChromeDevtoolsResult => vec!["op_id", "payload", "jscontext_id"],
        MsgType::AddJsContext => vec!["jscontext_id", "jscontext_name"],
        MsgType::RemoveJsContext => vec!["jscontext_id"],
        MsgType::ConnectJsContext => vec!["jscontext_id"],
        MsgType::CustomMessage => vec!["method", "payload", "raw"],
    };
    r
}


proof fn lemma_json_keys_len(t: MsgType)
    ensures
        json_keys(t).len() == schema(t).len(),
{
}

/// The message that carries the body of each category.
pub open spec fn category_type(c: DebugMessageCategory) -> MsgType {
    match c {
        DebugMessageCategory::SetupContext => MsgType::SetupContext,
        DebugMessageCategory::CallInterface => MsgType::CallInterface,
        DebugMessageCategory::CallInterfaceResult => MsgType::CallInterfaceResult,
        DebugMessageCategory::EvaluateJavascript => MsgType::EvaluateJavascript,
        DebugMessageCategory::EvaluateJavascriptResult => MsgType::EvaluateJavascriptResult,
        DebugMessageCategory::Breakpoint => MsgType::Breakpoint,
        DebugMessageCategory::Ping => MsgType::Ping,
        DebugMessageCategory::Pong => MsgType::Pong,
        DebugMessageCategory::DomOp => MsgType::DomOp,
        DebugMessageCategory::DomEvent => MsgType::DomEvent,
        DebugMessageCategory::NetworkDebugAPI => MsgType::NetworkDebugApi,
        DebugMessageCategory::ChromeDevtools => MsgType::ChromeDevtools,
        DebugMessageCategory::ChromeDevtoolsResult => MsgType::ChromeDevtoolsResult,
        DebugMessageCategory::AddJsContext => MsgType::AddJsContext,
        DebugMessageCategory::RemoveJsContext => MsgType::RemoveJsContext,
        DebugMessageCategory::ConnectJsContext => MsgType::ConnectJsContext,
        DebugMessageCategory::CustomMessage => MsgType::CustomMessage,
    }
}

/// The message that carries the body of each category.
pub fn message_type(c: DebugMessageCategory) -> (t: MsgType)
    ensures
        t == category_type(c),
{
    match c {
        DebugMessageCategory::SetupContext => MsgType::SetupContext,
        DebugMessageCategory::CallInterface => MsgType::CallInterface,
        DebugMessageCategory::CallInterfaceResult => MsgType::CallInterfaceResult,
        DebugMessageCategory::EvaluateJavascript => MsgType::EvaluateJavascript,
        DebugMessageCategory::EvaluateJavascriptResult => MsgType::EvaluateJavascriptResult,
        DebugMessageCategory::Breakpoint => MsgType::Breakpoint,
        DebugMessageCategory::Ping => MsgType::Ping,
        DebugMessageCategory::Pong => MsgType::Pong,
        DebugMessageCategory::DomOp => MsgType::DomOp,
        DebugMessageCategory::DomEvent => MsgType::DomEvent,
        DebugMessageCategory::NetworkDebugAPI => MsgType::NetworkDebugApi,
        DebugMessageCategory::ChromeDevtools => MsgType::ChromeDevtools,
        DebugMessageCategory::ChromeDevtoolsResult => MsgType::ChromeDevtoolsResult,
        DebugMessageCategory::AddJsContext => MsgType::AddJsContext,
        DebugMessageCategory::RemoveJsContext => MsgType::RemoveJsContext,
        DebugMessageCategory::ConnectJsContext => MsgType::ConnectJsContext,
        DebugMessageCategory::CustomMessage => MsgType::CustomMessage,
    }
}

/// The JSON of a scalar field value: numbers as numbers (a `bool` as 1 or
/// 0), strings as strings, bytes read as UTF-8 with malformed sequences
/// replaced, repeated strings as an array.
pub open spec fn render_scalar(v: Val) -> JsonV {
    match v {
        Val::U32(x) => JsonV::Number(JsonNumber::PosInt(x as u64)),
        Val::I32(x) => if x >= 0 {
            JsonV::Number(JsonNumber::PosInt(x as u64))
        } else {
            JsonV::Number(JsonNumber::NegInt(x as i64))
        },
        Val::U64(x) => JsonV::Number(JsonNumber::PosInt(x)),
        Val::Bool(b) => JsonV::Number(JsonNumber::PosInt(if b { 1 } else { 0 })),
        Val::F32(bits) => JsonV::Number(JsonNumber::Float32(bits)),
        Val::Str(st) => JsonV::Str(st),
        Val::Bytes(b) => JsonV::Str(lossy_text(b)),
        Val::Strs(ss) => JsonV::Array(ss.map_values(|st: Seq<char>| JsonV::Str(st))),
        _ => JsonV::Null,
    }
}

/// The JSON object of the values of a message of type `t`, embedded
/// messages rendered `level` deep.
pub open spec fn render_msg(t: MsgType, vs: Seq<Val>, level: nat) -> JsonV
    decreases level, 1nat,
{
    JsonV::Object(
        Seq::new(
            schema(t).len(),
            |i: int|
                (json_keys(t)[i], if i < vs.len() {
                    render_field(schema(t)[i].1, vs[i], level)
                } else {
                    JsonV::Null
                }),
        ),
    )
}

/// The JSON of a field value: an embedded message as an object (an absent
/// `BaseResp` as `null`, another absent message as its defaults), repeated
/// messages as an array.
pub open spec fn render_field(k: FieldKind, v: Val, level: nat) -> JsonV
    decreases level, 0nat,
{
    match (k, v) {
        (FieldKind::Msg(t), Val::Msg(Some(inner))) => if level == 0 {
            JsonV::Null
        } else {
            render_msg(t, inner, (level - 1) as nat)
        },
        (FieldKind::Msg(t), Val::Msg(None)) => if level == 0 || t == MsgType::BaseResp {
            JsonV::Null
        } else {
            render_msg(t, crate::proto::defaults(t), (level - 1) as nat)
        },
        (FieldKind::Msgs(t), Val::Msgs(ms)) => if level == 0 {
            JsonV::Null
        } else {
            JsonV::Array(Seq::new(ms.len(), |j: int| render_msg(t, ms[j], (level - 1) as nat)))
        },
        _ => render_scalar(v),
    }
}

fn render_scalar_exec(v: &ProtoValue) -> (r: JsonValue)
    ensures
        json_view(r) == render_scalar(value_view(*v)),
{
    match v {
        ProtoValue::U32(x) => JsonValue::Number(JsonNumber::PosInt(*x as u64)),
        ProtoValue::I32(x) => {
            if *x >= 0 {
                JsonValue::Number(JsonNumber::PosInt(*x as u64))
            } else {
                JsonValue::Number(JsonNumber::NegInt(*x as i64))
            }
        },
        ProtoValue::U64(x) => JsonValue::Number(JsonNumber::PosInt(*x)),
        ProtoValue::Bool(b) => JsonValue::Number(JsonNumber::PosInt(if *b { 1 } else { 0 })),
        ProtoValue::F32(bits) => JsonValue::Number(JsonNumber::Float32(*bits)),
        ProtoValue::Str(st) => JsonValue::Str(st.clone()),
        ProtoValue::Bytes(b) => JsonValue::Str(bytes_to_text_lossy(b.as_slice())),
        ProtoValue::Strs(ss) => {
            let mut items: Vec<JsonValue> = Vec::new();
            let mut i: usize = 0;
            while i < ss.len()
                invariant
                    i <= ss@.len(),
                    items@.len() == i,
                    forall|j: int| 0 <= j < i ==> json_view(#[trigger] items@[j]) == JsonV::Str(ss@[j]@),
                decreases ss@.len() - i,
            {
                items.push(JsonValue::Str(ss[i].clone()));
                i = i + 1;
            }
            proof {
                lemma_json_seq_view(items@);
            }
            assert(json_seq_view(items@) =~= ss@.map_values(|st: String| st@).map_values(
                |st: Seq<char>| JsonV::Str(st),
            ));
            JsonValue::Array(items)
        },
        _ => JsonValue::Null,
    }
}

fn render_field_exec(k: FieldKind, v: &ProtoValue, level: u8) -> (r: JsonValue)
    ensures
        json_view(r) == render_field(k, value_view(*v), level as nat),
    decreases level, 0nat,
{
    match (k, v) {
        (FieldKind::Msg(t), ProtoValue::Msg(Some(inner))) => {
            if level == 0 {
                JsonValue::Null
            } else {
                render_msg_exec(t, inner, level - 1)
            }
        },
        (FieldKind::Msg(t), ProtoValue::Msg(None)) => {
            if level == 0 || t == MsgType::BaseResp {
                JsonValue::Null
            } else {
                let empty: Vec<u8> = Vec::new();
                let d = crate::proto::decode_or_default_exec(t, empty.as_slice());
                proof {
                    crate::proto::lemma_decode_empty(t);
                    assert(empty@ =~= Seq::<u8>::empty());
                }
                render_msg_exec(t, &d, level - 1)
            }
        },
        (FieldKind::Msgs(t), ProtoValue::Msgs(ms)) => {
            if level == 0 {
                JsonValue::Null
            } else {
                let ghost mv = crate::proto::messages_view(ms@);
                proof {
                    crate::proto::lemma_messages_view(ms@);
                }
                let mut items: Vec<JsonValue> = Vec::new();
                let mut i: usize = 0;
                while i < ms.len()
                    invariant
                        i <= ms@.len(),
                        level > 0,
                        mv == crate::proto::messages_view(ms@),
                        mv.len() == ms@.len(),
                        forall|j: int| 0 <= j < ms@.len() ==> #[trigger] mv[j] == values_view(ms@[j]@),
                        items@.len() == i,
                        forall|j: int|
                            0 <= j < i ==> json_view(#[trigger] items@[j]) == render_msg(
                                t,
                                mv[j],
                                (level - 1) as nat,
                            ),
                    decreases ms@.len() - i,
                {
                    let item = render_msg_exec(t, &ms[i], level - 1);
                    items.push(item);
                    i = i + 1;
                }
                proof {
                    lemma_json_seq_view(items@);
                }
                assert(render_field(k, value_view(*v), level as nat)->Array_0 =~= json_seq_view(items@));
                JsonValue::Array(items)
            }
        },
        _ => {
            let r = render_scalar_exec(v);
            proof {
                match (k, value_view(*v)) {
                    (FieldKind::Msg(_), Val::Msg(_)) => {},
                    (FieldKind::Msgs(_), Val::Msgs(_)) => {},
                    _ => {},
                }
            }
            r
        },
    }
}

fn render_msg_exec(t: MsgType, vals: &Vec<ProtoValue>, level: u8) -> (r: JsonValue)
    ensures
        json_view(r) == render_msg(t, values_view(vals@), level as nat),
    decreases level, 1nat,
{
    let specs = crate::proto::fields_of(t);
    let keys = json_keys_of(t);
    let ghost vv = values_view(vals@);
    proof {
        lemma_json_keys_len(t);
        lemma_values_view(vals@);
    }
    let mut pairs: Vec<(String, JsonValue)> = Vec::new();
    let mut i: usize = 0;
    while i < specs.len()
        invariant
            i <= specs@.len(),
            specs@ == schema(t),
            keys@.len() == specs@.len(),
            forall|j: int| 0 <= j < keys@.len() ==> (#[trigger] keys@[j])@ == json_keys(t)[j],
            vv == values_view(vals@),
            vv.len() == vals@.len(),
            forall|j: int| 0 <= j < vals@.len() ==> #[trigger] vv[j] == value_view(vals@[j]),
            pairs@.len() == i,
            forall|j: int|
                0 <= j < i ==> (#[trigger] pairs@[j]).0@ == json_keys(t)[j] && json_view(pairs@[j].1)
                    == if j < vv.len() {
                    render_field(schema(t)[j].1, vv[j], level as nat)
                } else {
                    JsonV::Null
                },
        decreases specs@.len() - i,
    {
        let value = if i < vals.len() {
            render_field_exec(specs[i].1, &vals[i], level)
        } else {
            JsonValue::Null
        };
        pairs.push((text(keys[i]), value));
        i = i + 1;
    }
    proof {
        lemma_json_pairs_view(pairs@);
    }
    assert(render_msg(t, vv, level as nat)->Object_0 =~= json_pairs_view(pairs@));
    JsonValue::Object(pairs)
}


/// A debug message: the frame that carries one message of a category.
pub struct DebugMessage {
    pub seq: u32,
    pub after: u32,
    pub category: String,
    pub data: Vec<u8>,
    pub compress_algo: u32,
    pub original_size: u32,
}

/// The field values of a debug message, in table order.
pub open spec fn debug_message_vals(m: DebugMessage) -> Seq<Val> {
    seq![
        Val::U32(m.seq),
        Val::U32(m.after),
        Val::Str(m.category@),
        Val::Bytes(m.data@),
        Val::U32(m.compress_algo),
        Val::U32(m.original_size),
    ]
}

impl DebugMessage {
    /// The protobuf body of the message.
    pub fn encode(&self) -> (r: Vec<u8>)
        ensures
            r@ == encode_spec(MsgType::DebugMessage, debug_message_vals(*self)),
    {
        let mut vals: Vec<ProtoValue> = Vec::new();
        vals.push(ProtoValue::U32(self.seq));
        vals.push(ProtoValue::U32(self.after));
        vals.push(ProtoValue::Str(self.category.clone()));
        vals.push(ProtoValue::Bytes(self.data.clone()));
        vals.push(ProtoValue::U32(self.compress_algo));
        vals.push(ProtoValue::U32(self.original_size));
        proof {
            lemma_values_view(vals@);
        }
        assert(values_view(vals@) =~= debug_message_vals(*self));
        let mut buf: Vec<u8> = Vec::new();
        encode_message(MsgType::DebugMessage, &vals, &mut buf);
        assert(buf@ =~= encode_spec(MsgType::DebugMessage, debug_message_vals(*self)));
        buf
    }

    /// The message encoded in `bytes`; `None` where decoding fails.
    pub fn decode(bytes: &[u8]) -> (r: Option<DebugMessage>)
        ensures
            match decode_spec(MsgType::DebugMessage, bytes@) {
                None => r is None,
                Some(v) => r matches Some(m) && debug_message_vals(m) == v,
            },
    {
        proof {
            crate::proto::lemma_decode_shape(MsgType::DebugMessage, bytes@);
        }
        match decode_message(MsgType::DebugMessage, bytes) {
            None => None,
            Some(vals) => {
                proof {
                    lemma_values_view(vals@);
                }
                match debug_message_from_values(vals) {
                    Some(m) => Some(m),
                    None => None,
                }
            },
        }
    }
}

/// The debug message whose field values are `vals`, where they have that
/// shape.
fn debug_message_from_values(vals: Vec<ProtoValue>) -> (r: Option<DebugMessage>)
    ensures
        crate::proto::shaped(MsgType::DebugMessage, values_view(vals@)) ==> (r matches Some(m)
            && debug_message_vals(m) == values_view(vals@)),
{
    proof {
        lemma_values_view(vals@);
    }
    let ghost vv = values_view(vals@);
    if vals.len() != 6 {
        return None;
    }
    let mut vals = vals;
    let f5 = vals.pop();
    let f4 = vals.pop();
    let f3 = vals.pop();
    let f2 = vals.pop();
    let f1 = vals.pop();
    let f0 = vals.pop();
    match (f0, f1, f2, f3, f4, f5) {
        (
            Some(ProtoValue::U32(seq)),
            Some(ProtoValue::U32(after)),
            Some(ProtoValue::Str(category)),
            Some(ProtoValue::Bytes(data)),
            Some(ProtoValue::U32(compress_algo)),
            Some(ProtoValue::U32(original_size)),
        ) => {
            let m = DebugMessage { seq, after, category, data, compress_algo, original_size };
            assert(debug_message_vals(m) =~= vv);
            Some(m)
        },
        _ => {
            proof {
                if crate::proto::shaped(MsgType::DebugMessage, vv) {
                    assert(crate::proto::kind_matches(schema(MsgType::DebugMessage)[0].1, vv[0]));
                    assert(crate::proto::kind_matches(schema(MsgType::DebugMessage)[1].1, vv[1]));
                    assert(crate::proto::kind_matches(schema(MsgType::DebugMessage)[2].1, vv[2]));
                    assert(crate::proto::kind_matches(schema(MsgType::DebugMessage)[3].1, vv[3]));
                    assert(crate::proto::kind_matches(schema(MsgType::DebugMessage)[4].1, vv[4]));
                    assert(crate::proto::kind_matches(schema(MsgType::DebugMessage)[5].1, vv[5]));
                }
            }
            None
        },
    }
}

/// The body of a message, inflated where its compression bits name zlib.
pub open spec fn inflate_if_zlib(data: Seq<u8>, compress_algo: u32) -> Seq<u8> {
    if data.len() > 0 && compress_algo & COMPRESS_ZLIB != 0 {
        zlib_inflated(data)
    } else {
        data
    }
}

/// The JSON of the body `data` of a message of category `c`: the body
/// decoded (or the defaults where it does not decode) and rendered with the
/// category's keys.
pub open spec fn category_json(c: DebugMessageCategory, data: Seq<u8>) -> JsonV {
    render_msg(category_type(c), crate::proto::decode_or_default(category_type(c), data), 2)
}

/// The JSON of a debug message: `null` where its category is unknown,
/// otherwise its frame fields with the body decoded by its category.
pub open spec fn unwrap_spec(
    seq: u32,
    after: u32,
    category: Seq<char>,
    data: Seq<u8>,
    compress_algo: u32,
    original_size: u32,
) -> JsonV {
    match category_named(category) {
        None => JsonV::Null,
        Some(c) => JsonV::Object(
            seq![
                ("seq"@, JsonV::Number(JsonNumber::PosInt(seq as u64))),
                ("delay"@, JsonV::Number(JsonNumber::PosInt(after as u64))),
                ("category"@, JsonV::Str(category)),
                ("data"@, category_json(c, inflate_if_zlib(data, compress_algo))),
                ("compress_algo"@, JsonV::Number(JsonNumber::PosInt(compress_algo as u64))),
                ("original_size"@, JsonV::Number(JsonNumber::PosInt(original_size as u64))),
            ],
        ),
    }
}

/// `unwrap_spec` over the field values of a debug message; `null` where
/// they are not of that shape.
pub open spec fn unwrap_vals(vs: Seq<Val>) -> JsonV {
    if crate::proto::shaped(MsgType::DebugMessage, vs) {
        unwrap_spec(
            vs[0]->U32_0,
            vs[1]->U32_0,
            vs[2]->Str_0,
            vs[3]->Bytes_0,
            vs[4]->U32_0,
            vs[5]->U32_0,
        )
    } else {
        JsonV::Null
    }
}

/// The JSON of the body of a message of category `c`.
pub fn decode_category_data(category: &DebugMessageCategory, data: &[u8]) -> (r: JsonValue)
    ensures
        json_view(r) == category_json(*category, data@),
{
    let t = message_type(*category);
    let vals = crate::proto::decode_or_default_exec(t, data);
    render_msg_exec(t, &vals, 2)
}

fn unwrap_fields(
    seq: u32,
    after: u32,
    category: &String,
    data: &Vec<u8>,
    compress_algo: u32,
    original_size: u32,
) -> (r: JsonValue)
    ensures
        json_view(r) == unwrap_spec(seq, after, category@, data@, compress_algo, original_size),
{
    let body = if data.len() > 0 && compress_algo & COMPRESS_ZLIB != 0 {
        zlib_decompress(data.as_slice())
    } else {
        data.clone()
    };
    match DebugMessageCategory::from_str(category.as_str()) {
        None => JsonValue::Null,
        Some(c) => {
            let parsed = decode_category_data(&c, body.as_slice());
            let mut pairs: Vec<(String, JsonValue)> = Vec::new();
            pairs.push((text("seq"), JsonValue::Number(JsonNumber::PosInt(seq as u64))));
            pairs.push((text("delay"), JsonValue::Number(JsonNumber::PosInt(after as u64))));
            pairs.push((text("category"), JsonValue::Str(category.clone())));
            pairs.push((text("data"), parsed));
            pairs.push(
                (text("compress_algo"), JsonValue::Number(JsonNumber::PosInt(compress_algo as u64))),
            );
            pairs.push(
                (text("original_size"), JsonValue::Number(JsonNumber::PosInt(original_size as u64))),
            );
            proof {
                lemma_json_pairs_view(pairs@);
            }
            assert(json_pairs_view(pairs@) =~= unwrap_spec(
                seq,
                after,
                category@,
                data@,
                compress_algo,
                original_size,
            )->Object_0);
            JsonValue::Object(pairs)
        },
    }
}

/// The JSON of a debug message: its frame fields, with the body inflated
/// where it is zlib-compressed and decoded by its category; `null` where the
/// category is unknown.
pub fn unwrap_debug_message_data(msg: &DebugMessage) -> (r: JsonValue)
    ensures
        json_view(r) == unwrap_spec(
            msg.seq,
            msg.after,
            msg.category@,
            msg.data@,
            msg.compress_algo,
            msg.original_size,
        ),
{
    unwrap_fields(msg.seq, msg.after, &msg.category, &msg.data, msg.compress_algo, msg.original_size)
}

fn unwrap_values(vals: &Vec<ProtoValue>) -> (r: JsonValue)
    ensures
        json_view(r) == unwrap_vals(values_view(vals@)),
{
    proof {
        lemma_values_view(vals@);
    }
    let ghost vv = values_view(vals@);
    if vals.len() != 6 {
        return JsonValue::Null;
    }
    match (&vals[0], &vals[1], &vals[2], &vals[3], &vals[4], &vals[5]) {
        (
            ProtoValue::U32(seq),
            ProtoValue::U32(after),
            ProtoValue::Str(category),
            ProtoValue::Bytes(data),
            ProtoValue::U32(compress_algo),
            ProtoValue::U32(original_size),
        ) => {
            assert(crate::proto::shaped(MsgType::DebugMessage, vv));
            unwrap_fields(*seq, *after, category, data, *compress_algo, *original_size)
        },
        _ => {
            proof {
                if crate::proto::shaped(MsgType::DebugMessage, vv) {
                    assert(crate::proto::kind_matches(schema(MsgType::DebugMessage)[0].1, vv[0]));
                    assert(crate::proto::kind_matches(schema(MsgType::DebugMessage)[1].1, vv[1]));
                    assert(crate::proto::kind_matches(schema(MsgType::DebugMessage)[2].1, vv[2]));
                    assert(crate::proto::kind_matches(schema(MsgType::DebugMessage)[3].1, vv[3]));
                    assert(crate::proto::kind_matches(schema(MsgType::DebugMessage)[4].1, vv[4]));
                    assert(crate::proto::kind_matches(schema(MsgType::DebugMessage)[5].1, vv[5]));
                }
            }
            JsonValue::Null
        },
    }
}


/// The body of a message that `wrap_debug_message_data` produces, and the
/// size of the body before compression (0 where it was not compressed).
pub struct WrapResult {
    pub buffer: Vec<u8>,
    pub original_size: u32,
}

/// The categories whose messages can be built from JSON.
pub open spec fn wraps(c: DebugMessageCategory) -> bool {
    match c {
        DebugMessageCategory::CallInterface => true,
        DebugMessageCategory::EvaluateJavascriptResult => true,
        DebugMessageCategory::Ping => true,
        DebugMessageCategory::Breakpoint => true,
        DebugMessageCategory::DomOp => true,
        DebugMessageCategory::DomEvent => true,
        DebugMessageCategory::ChromeDevtools => true,
        DebugMessageCategory::ConnectJsContext => true,
        DebugMessageCategory::CustomMessage => true,
        _ => false,
    }
}

/// The value of a field of type `k` read from `data[key]`: a string with
/// `as_str` (or ""), a `uint32` with `as_u64` (or 0) cut to 32 bits, a
/// `bool` with `as_bool` (or false), repeated strings from an array, bytes
/// as the UTF-8 of a string.
pub open spec fn json_field_value(k: FieldKind, data: JsonV, key: Seq<char>) -> Val {
    match k {
        FieldKind::U32 => Val::U32(u64_or_zero(data, key) as u32),
        FieldKind::U64 => Val::U64(u64_or_zero(data, key)),
        FieldKind::I32 => Val::I32(0),
        FieldKind::Bool => Val::Bool(bool_or_false(data, key)),
        FieldKind::F32 => Val::F32(0),
        FieldKind::Str => Val::Str(str_or_empty(data, key)),
        FieldKind::Bytes => Val::Bytes(encode_utf8(str_or_empty(data, key))),
        FieldKind::Strs => Val::Strs(strs_or_empty(data, key)),
        FieldKind::Msg(_) => Val::Msg(None),
        FieldKind::Msgs(_) => Val::Msgs(Seq::empty()),
    }
}

/// The field values of a message of type `t` read from the JSON object
/// `data` by the message's keys.
pub open spec fn values_from_json(t: MsgType, data: JsonV) -> Seq<Val> {
    Seq::new(
        schema(t).len(),
        |i: int| json_field_value(schema(t)[i].1, data, json_keys(t)[i]),
    )
}

/// The body that `wrap_debug_message_data` builds, before compression.
pub open spec fn wrap_body(data: JsonV, c: DebugMessageCategory) -> Seq<u8> {
    encode_spec(category_type(c), values_from_json(category_type(c), data))
}

/// What `wrap_debug_message_data` gives: nothing for a category it does not
/// build; otherwise the body, zlib-compressed where it is not empty and the
/// compression bits name zlib (with the size before compression).
pub open spec fn wrap_spec(data: JsonV, c: DebugMessageCategory, compress_algo: u32) -> (Seq<u8>, u32) {
    if !wraps(c) {
        (Seq::empty(), 0)
    } else if wrap_body(data, c).len() > 0 && compress_algo & COMPRESS_ZLIB != 0 {
        (zlib_compressed(wrap_body(data, c)), wrap_body(data, c).len() as u32)
    } else {
        (wrap_body(data, c), 0)
    }
}

/// The UTF-8 of a string in memory can be written with a varint length.
fn utf8_len_fits(s: &String)
    ensures
        encode_utf8(s@).len() <= u64::MAX,
{
    let b = s.as_str().as_bytes();
    assert(b@.len() == b.len());
}

fn json_field_value_exec(k: FieldKind, data: &JsonValue, key: &str) -> (r: ProtoValue)
    ensures
        value_view(r) == json_field_value(k, json_view(*data), key@),
        crate::proto::value_fits(k, json_field_value(k, json_view(*data), key@)),
{
    match k {
        FieldKind::U32 => ProtoValue::U32(#[verifier::truncate] (get_u64(data, key) as u32)),
        FieldKind::U64 => ProtoValue::U64(get_u64(data, key)),
        FieldKind::I32 => ProtoValue::I32(0),
        FieldKind::Bool => ProtoValue::Bool(get_bool(data, key)),
        FieldKind::F32 => ProtoValue::F32(0),
        FieldKind::Str => {
            let st = get_str(data, key);
            utf8_len_fits(&st);
            ProtoValue::Str(st)
        },
        FieldKind::Bytes => {
            let st = get_str(data, key);
            utf8_len_fits(&st);
            ProtoValue::Bytes(st.as_str().as_bytes_vec())
        },
        FieldKind::Strs => {
            let ss = get_strs(data, key);
            let mut i: usize = 0;
            while i < ss.len()
                invariant
                    i <= ss@.len(),
                    forall|j: int| 0 <= j < i ==> encode_utf8((#[trigger] ss@[j])@).len() <= u64::MAX,
                decreases ss@.len() - i,
            {
                utf8_len_fits(&ss[i]);
                i = i + 1;
            }
            assert(forall|j: int| 0 <= j < ss@.len() ==> ss@.map_values(|s: String| s@)[j] == ss@[j]@);
            ProtoValue::Strs(ss)
        },
        FieldKind::Msg(_) => ProtoValue::Msg(None),
        FieldKind::Msgs(_) => {
            let e: Vec<Vec<ProtoValue>> = Vec::new();
            assert(crate::proto::messages_view(e@) =~= Seq::<Seq<Val>>::empty());
            ProtoValue::Msgs(e)
        },
    }
}

/// The fields of `t` from `i` on fit where each of them does.
proof fn lemma_fits_from(t: MsgType, vs: Seq<Val>, i: nat)
    requires
        forall|j: int| i <= j < schema(t).len() && j < vs.len() ==> crate::proto::value_fits(
            schema(t)[j].1,
            #[trigger] vs[j],
        ),
    ensures
        crate::proto::fits_from(t, vs, i),
    decreases schema(t).len() - i,
{
    if i < schema(t).len() && i < vs.len() {
        lemma_fits_from(t, vs, i + 1);
    }
}

fn values_from_json_exec(t: MsgType, data: &JsonValue) -> (r: Vec<ProtoValue>)
    ensures
        values_view(r@) == values_from_json(t, json_view(*data)),
        crate::proto::message_fits(t, values_from_json(t, json_view(*data))),
{
    let specs = crate::proto::fields_of(t);
    let keys = json_keys_of(t);
    proof {
        lemma_json_keys_len(t);
    }
    let mut out: Vec<ProtoValue> = Vec::new();
    let mut i: usize = 0;
    while i < specs.len()
        invariant
            i <= specs@.len(),
            specs@ == schema(t),
            keys@.len() == specs@.len(),
            forall|j: int| 0 <= j < keys@.len() ==> (#[trigger] keys@[j])@ == json_keys(t)[j],
            out@.len() == i,
            forall|j: int|
                0 <= j < i ==> value_view(#[trigger] out@[j]) == json_field_value(
                    schema(t)[j].1,
                    json_view(*data),
                    json_keys(t)[j],
                ),
            forall|j: int|
                0 <= j < i ==> crate::proto::value_fits(
                    schema(t)[j].1,
                    #[trigger] json_field_value(schema(t)[j].1, json_view(*data), json_keys(t)[j]),
                ),
        decreases specs@.len() - i,
    {
        out.push(json_field_value_exec(specs[i].1, data, keys[i]));
        i = i + 1;
    }
    proof {
        lemma_values_view(out@);
    }
    assert(values_view(out@) =~= values_from_json(t, json_view(*data)));
    proof {
        let vs = values_from_json(t, json_view(*data));
        assert forall|j: int| 0 <= j < schema(t).len() && j < vs.len() implies crate::proto::value_fits(
            schema(t)[j].1,
            #[trigger] vs[j],
        ) by {
            assert(vs[j] == json_field_value(schema(t)[j].1, json_view(*data), json_keys(t)[j]));
        }
        lemma_fits_from(t, vs, 0);
    }
    out
}

/// Builds the body of a message of category `category` from the JSON object
/// `data`, read by the category's keys; zlib-compresses it where it is not empty
/// and `compress_algo` names zlib. Categories that are not built from JSON
/// give an empty body.
pub fn wrap_debug_message_data(
    data: &JsonValue,
    category: &DebugMessageCategory,
    compress_algo: u32,
) -> (r: WrapResult)
    ensures
        (r.buffer@, r.original_size) == wrap_spec(json_view(*data), *category, compress_algo),
        wraps(*category) ==> inflate_if_zlib(r.buffer@, compress_algo) == wrap_body(
            json_view(*data),
            *category,
        ),
        wraps(*category) ==> category_json(*category, inflate_if_zlib(r.buffer@, compress_algo))
            == render_msg(
            category_type(*category),
            values_from_json(category_type(*category), json_view(*data)),
            2,
        ),
{
    let wrapped = match category {
        DebugMessageCategory::CallInterface => true,
        DebugMessageCategory::EvaluateJavascriptResult => true,
        DebugMessageCategory::Ping => true,
        DebugMessageCategory::Breakpoint => true,
        DebugMessageCategory::DomOp => true,
        DebugMessageCategory::DomEvent => true,
        DebugMessageCategory::ChromeDevtools => true,
        DebugMessageCategory::ConnectJsContext => true,
        DebugMessageCategory::CustomMessage => true,
        _ => false,
    };
    if !wrapped {
        return WrapResult { buffer: Vec::new(), original_size: 0 };
    }
    let t = message_type(*category);
    let vals = values_from_json_exec(t, data);
    let mut buf: Vec<u8> = Vec::new();
    encode_message(t, &vals, &mut buf);
    assert(buf@ =~= wrap_body(json_view(*data), *category));
    let mut original_size: u32 = 0;
    proof {
        lemma_wrap_unwrap(json_view(*data), *category);
    }
    if buf.len() > 0 && compress_algo & COMPRESS_ZLIB != 0 {
        original_size = #[verifier::truncate] (buf.len() as u32);
        buf = zlib_compress(buf.as_slice());
    }
    WrapResult { buffer: buf, original_size }
}

/// The command number that answers a request type, or -1.
pub open spec fn request_cmd(request_type: i32) -> i32 {
    if request_type == 2001 {
        1001
    } else if request_type == 2002 {
        1002
    } else if request_type == 3001 {
        3001
    } else if request_type == 3002 {
        3002
    } else if request_type == 3003 {
        3003
    } else if request_type == 2003 {
        1003
    } else if request_type == 2000 {
        1000
    } else if request_type == 2006 {
        1006
    } else if request_type == 2004 {
        1004
    } else if request_type == 1000 {
        2000
    } else if request_type == 1006 {
        2006
    } else if request_type == 2005 {
        1005
    } else {
        -1i32
    }
}

/// The command number that answers a request type, or -1 for a type
/// without one.
pub fn request_type_to_cmd(request_type: i32) -> (cmd: i32)
    ensures
        cmd == request_cmd(request_type),
{
    match request_type {
        2001 => 1001,
        2002 => 1002,
        3001 => 3001,
        3002 => 3002,
        3003 => 3003,
        2003 => 1003,
        2000 => 1000,
        2006 => 1006,
        2004 => 1004,
        1000 => 2000,
        1006 => 2006,
        2005 => 1005,
        _ => -1,
    }
}

/// The values of the acknowledgement sent for a parallel message
/// notification: a base response with code 0 and no message, and no ack.
pub open spec fn ack_vals() -> Seq<Val> {
    seq![Val::Msg(Some(seq![Val::I32(0), Val::Str(Seq::empty())])), Val::U32(0)]
}

/// The frame that `wrap_outgoing_to_proto` builds: for request type 1006,
/// a data frame with the answering command, the uuid and the encoded
/// acknowledgement; no bytes for other request types.
pub open spec fn outgoing_spec(request_type: i32, uuid: Seq<char>) -> Seq<u8> {
    if request_type == 1006 {
        encode_spec(
            MsgType::DataFormat,
            seq![
                Val::U32(request_cmd(request_type) as u32),
                Val::Str(uuid),
                Val::Bytes(encode_spec(MsgType::SendDebugMessageResp, ack_vals())),
            ],
        )
    } else {
        Seq::empty()
    }
}

/// Builds the frame answering a request; empty for request types that have
/// no answer.
pub fn wrap_outgoing_to_proto(_data: &JsonValue, request_type: i32, uuid: &str) -> (r: Vec<u8>)
    ensures
        r@ == outgoing_spec(request_type, uuid@),
{
    let cmd = request_type_to_cmd(request_type);
    if request_type != 1006 {
        return Vec::new();
    }
    let mut base: Vec<ProtoValue> = Vec::new();
    base.push(ProtoValue::I32(0));
    base.push(ProtoValue::Str(String::new()));
    let mut ack: Vec<ProtoValue> = Vec::new();
    ack.push(ProtoValue::Msg(Some(base)));
    ack.push(ProtoValue::U32(0));
    proof {
        lemma_values_view(ack@);
    }
    assert(values_view(ack@) =~= ack_vals()) by {
        assert(values_view(ack@)[0] == value_view(ack@[0]));
        let inner = ack@[0]->Msg_0->0;
        lemma_values_view(inner@);
        assert(values_view(inner@) =~= seq![Val::I32(0), Val::Str(Seq::empty())]);
    }
    let mut inner_data: Vec<u8> = Vec::new();
    encode_message(MsgType::SendDebugMessageResp, &ack, &mut inner_data);
    let mut frame: Vec<ProtoValue> = Vec::new();
    frame.push(ProtoValue::U32(#[verifier::truncate] (cmd as u32)));
    frame.push(ProtoValue::Str(text(uuid)));
    frame.push(ProtoValue::Bytes(inner_data));
    proof {
        lemma_values_view(frame@);
    }
    let mut buf: Vec<u8> = Vec::new();
    encode_message(MsgType::DataFormat, &frame, &mut buf);
    assert(values_view(frame@) =~= seq![
        Val::U32(request_cmd(request_type) as u32),
        Val::Str(uuid@),
        Val::Bytes(encode_spec(MsgType::SendDebugMessageResp, ack_vals())),
    ]);
    assert(buf@ =~= outgoing_spec(request_type, uuid@));
    buf
}


/// The message that the payload of each command carries.
pub open spec fn response_type(cmd: u32) -> Option<MsgType> {
    if cmd == 1000 || cmd == 1006 {
        Some(MsgType::MessageNotify)
    } else if cmd == 2000 {
        Some(MsgType::SendDebugMessageResp)
    } else if cmd == 2002 {
        Some(MsgType::DevLoginResp)
    } else if cmd == 2003 {
        Some(MsgType::DevJoinRoomResp)
    } else if cmd == 2001 {
        Some(MsgType::DevHeartBeatResp)
    } else if cmd == 2004 {
        Some(MsgType::DevQuitRoomResp)
    } else if cmd == 2006 {
        Some(MsgType::NewSendDebugMessageResp)
    } else if cmd == 2005 {
        Some(MsgType::DevSyncMessageResp)
    } else if 3001 <= cmd <= 3003 {
        Some(MsgType::EventNotify)
    } else {
        None
    }
}

fn response_type_exec(cmd: u32) -> (r: Option<MsgType>)
    ensures
        r == response_type(cmd),
{
    if cmd == 1000 || cmd == 1006 {
        Some(MsgType::MessageNotify)
    } else if cmd == 2000 {
        Some(MsgType::SendDebugMessageResp)
    } else if cmd == 2002 {
        Some(MsgType::DevLoginResp)
    } else if cmd == 2003 {
        Some(MsgType::DevJoinRoomResp)
    } else if cmd == 2001 {
        Some(MsgType::DevHeartBeatResp)
    } else if cmd == 2004 {
        Some(MsgType::DevQuitRoomResp)
    } else if cmd == 2006 {
        Some(MsgType::NewSendDebugMessageResp)
    } else if cmd == 2005 {
        Some(MsgType::DevSyncMessageResp)
    } else if 3001 <= cmd && cmd <= 3003 {
        Some(MsgType::EventNotify)
    } else {
        None
    }
}

/// The JSON of a field of a reply: debug messages unwrapped one by one,
/// other fields rendered one level deep.
pub open spec fn resp_field(k: FieldKind, v: Val) -> JsonV {
    match (k, v) {
        (FieldKind::Msgs(MsgType::DebugMessage), Val::Msgs(ms)) => JsonV::Array(
            Seq::new(ms.len(), |j: int| unwrap_vals(ms[j])),
        ),
        _ => render_field(k, v, 1),
    }
}

/// The JSON object of the values of a reply or notification.
pub open spec fn render_response(t: MsgType, vs: Seq<Val>) -> JsonV {
    JsonV::Object(
        Seq::new(
            schema(t).len(),
            |i: int|
                (json_keys(t)[i], if i < vs.len() {
                    resp_field(schema(t)[i].1, vs[i])
                } else {
                    JsonV::Null
                }),
        ),
    )
}

/// The text of a decoding error raised while reading the field `field` of a
/// data frame: prost's prefix, the message and field, then the cause.
pub open spec fn data_format_field_error(field: Seq<char>, cause: Seq<char>) -> Seq<char> {
    decode_error_prefix() + "WaRemoteDebugDataFormat."@ + field + ": "@ + cause
}

/// Reads the fields of a data frame from `s` one after another, as prost's
/// decoding of the frame does, starting from the values read so far: the
/// command (field 1, `uint32`), the uuid (field 2, `string`) and the
/// payload (field 3, `bytes`), each the last one given; other fields are
/// skipped. Gives the values, or the text of the first error met. (Every
/// step moves forward within `s`; the branches where one would not are
/// never taken.)
pub open spec fn data_format_merge(s: Seq<u8>, cmd: u32, uuid: Seq<char>, payload: Seq<u8>) -> Result<
    (u32, Seq<char>, Seq<u8>),
    Seq<char>,
>
    decreases s.len(),
{
    if s.len() == 0 {
        Ok((cmd, uuid, payload))
    } else {
        match key_decode(s) {
            None => Err(decode_error_prefix() + decode_key_error(s)),
            Some((tag, k, n)) => {
                let r = s.skip(n as int);
                if tag == 1 {
                    match (if k == WireKind::Varint { varint_decode(r) } else { None }) {
                        None => Err(data_format_field_error("cmd"@, uint32_merge_error(k, r))),
                        Some((v, m)) => if 1 <= n + m <= s.len() {
                            data_format_merge(s.skip((n + m) as int), v as u32, uuid, payload)
                        } else {
                            Err(decode_error_prefix())
                        },
                    }
                } else if tag == 2 {
                    match (if k == WireKind::LengthDelimited { value_decode(k, r) } else { None }) {
                        Some((WireVal::Bytes(b), m)) => if !valid_utf8(b) {
                            Err(data_format_field_error("uuid"@, string_merge_error(k, r)))
                        } else if 1 <= n + m <= s.len() {
                            data_format_merge(s.skip((n + m) as int), cmd, decode_utf8(b), payload)
                        } else {
                            Err(decode_error_prefix())
                        },
                        _ => Err(data_format_field_error("uuid"@, string_merge_error(k, r))),
                    }
                } else if tag == 3 {
                    match (if k == WireKind::LengthDelimited { value_decode(k, r) } else { None }) {
                        Some((WireVal::Bytes(b), m)) => if 1 <= n + m <= s.len() {
                            data_format_merge(s.skip((n + m) as int), cmd, uuid, b)
                        } else {
                            Err(decode_error_prefix())
                        },
                        _ => Err(data_format_field_error("data"@, bytes_merge_error(k, r))),
                    }
                } else {
                    let skipped = if k == WireKind::StartGroup {
                        skip_field_result(k, tag, r)
                    } else {
                        match value_decode(k, r) {
                            Some((_, m)) => Ok(m),
                            None => Err(skip_error(k, r)),
                        }
                    };
                    match skipped {
                        Err(c) => Err(decode_error_prefix() + c),
                        Ok(m) => if 1 <= n + m <= s.len() {
                            data_format_merge(s.skip((n + m) as int), cmd, uuid, payload)
                        } else {
                            Err(decode_error_prefix())
                        },
                    }
                }
            },
        }
    }
}

/// The values of a data frame, or the text of the error that decoding it
/// meets.
pub open spec fn data_format_decode(s: Seq<u8>) -> Result<(u32, Seq<char>, Seq<u8>), Seq<char>> {
    data_format_merge(s, 0, Seq::empty(), Seq::empty())
}

/// `prefix` and the field's path put before the cause carried by `m`, the
/// text of a fresh decoding error.
fn field_error(field: &str, m: &str) -> (r: String)
    requires
        m@.len() >= decode_error_prefix().len(),
    ensures
        r@ == data_format_field_error(field@, m@.skip(decode_error_prefix().len() as int)),
{
    proof {
        reveal_strlit("failed to decode Protobuf message: ");
        reveal_strlit("WaRemoteDebugDataFormat.");
    }
    let n = m.unicode_len();
    let cause = m.substring_char(35, n);
    let mut out = text("failed to decode Protobuf message: ");
    out.append("WaRemoteDebugDataFormat.");
    out.append(field);
    out.append(": ");
    out.append(cause);
    out
}

/// Decodes a data frame, field by field, as prost does.
fn decode_data_format(data: &[u8]) -> (r: Result<(u32, String, Vec<u8>), String>)
    ensures
        match data_format_decode(data@) {
            Ok((c, u, p)) => r matches Ok((x, y, z)) && x == c && y@ == u && z@ == p,
            Err(e) => r matches Err(m) && m@ == e,
        },
{
    proof {
        reveal_strlit("failed to decode Protobuf message: ");
    }
    let ghost prefix = decode_error_prefix();
    assert(prefix.len() == 35);
    let mut rest = data;
    let mut cmd: u32 = 0;
    let mut uuid = String::new();
    let mut payload: Vec<u8> = Vec::new();
    while rest.len() > 0
        invariant
            data_format_decode(data@) == data_format_merge(rest@, cmd, uuid@, payload@),
            decode_error_prefix().len() == 35,
        decreases rest@.len(),
    {
        proof {
            lemma_key_bounds(rest@);
        }
        let ghost s = rest@;
        match take_key(rest) {
            Err(m) => {
                return Err(m);
            },
            Ok((tag, k, r1)) => {
                let ghost n = s.len() - r1@.len();
                assert(r1@ =~= s.skip(n));
                proof {
                    lemma_leb_bounds(r1@, 10);
                    lemma_value_bounds(k, r1@);
                }
                if tag == 1 {
                    match merge_u32(k, r1) {
                        Err(m) => {
                            assert(m@.skip(35) =~= uint32_merge_error(k, r1@));
                            return Err(field_error("cmd", m.as_str()));
                        },
                        Ok((v, r2)) => {
                            assert(r2@ =~= s.skip(s.len() - r2@.len()));
                            cmd = v;
                            rest = r2;
                        },
                    }
                } else if tag == 2 {
                    match merge_string(k, r1) {
                        Err(m) => {
                            assert(m@.skip(35) =~= string_merge_error(k, r1@));
                            return Err(field_error("uuid", m.as_str()));
                        },
                        Ok((v, r2)) => {
                            assert(r2@ =~= s.skip(s.len() - r2@.len()));
                            uuid = v;
                            rest = r2;
                        },
                    }
                } else if tag == 3 {
                    match merge_bytes(k, r1) {
                        Err(m) => {
                            assert(m@.skip(35) =~= bytes_merge_error(k, r1@));
                            return Err(field_error("data", m.as_str()));
                        },
                        Ok((v, r2)) => {
                            assert(r2@ =~= s.skip(s.len() - r2@.len()));
                            payload = v;
                            rest = r2;
                        },
                    }
                } else {
                    match take_skip(k, tag, r1) {
                        Err(m) => {
                            return Err(m);
                        },
                        Ok(r2) => {
                            assert(r2@ =~= s.skip(s.len() - r2@.len()));
                            rest = r2;
                        },
                    }
                }
            },
        }
    }
    Ok((cmd, uuid, payload))
}

/// The JSON of a data frame: an error object carrying the text of the
/// decoding error where the frame does not decode; otherwise its command, uuid, payload decoded by the command
/// (`null` for an unknown command) and the command's name.
pub open spec fn data_format_json(data: Seq<u8>) -> JsonV {
    match data_format_decode(data) {
        Err(e) => JsonV::Object(seq![("error"@, JsonV::Str(e))]),
        Ok((cmd, uuid, payload)) => {
            JsonV::Object(
                seq![
                    ("cmd"@, JsonV::Number(JsonNumber::PosInt(cmd as u64))),
                    ("uuid"@, JsonV::Str(uuid)),
                    ("data"@, match response_type(cmd) {
                        Some(t) => render_response(t, crate::proto::decode_or_default(t, payload)),
                        None => JsonV::Null,
                    }),
                    ("_comment"@, JsonV::Str(response_type_name_spec(cmd))),
                ],
            )
        },
    }
}

fn resp_field_exec(k: FieldKind, v: &ProtoValue) -> (r: JsonValue)
    ensures
        json_view(r) == resp_field(k, value_view(*v)),
{
    match (k, v) {
        (FieldKind::Msgs(MsgType::DebugMessage), ProtoValue::Msgs(ms)) => {
            let ghost mv = crate::proto::messages_view(ms@);
            proof {
                crate::proto::lemma_messages_view(ms@);
            }
            let mut items: Vec<JsonValue> = Vec::new();
            let mut i: usize = 0;
            while i < ms.len()
                invariant
                    i <= ms@.len(),
                    mv == crate::proto::messages_view(ms@),
                    mv.len() == ms@.len(),
                    forall|j: int| 0 <= j < ms@.len() ==> #[trigger] mv[j] == values_view(ms@[j]@),
                    items@.len() == i,
                    forall|j: int| 0 <= j < i ==> json_view(#[trigger] items@[j]) == unwrap_vals(mv[j]),
                decreases ms@.len() - i,
            {
                items.push(unwrap_values(&ms[i]));
                i = i + 1;
            }
            proof {
                lemma_json_seq_view(items@);
            }
            assert(resp_field(k, value_view(*v))->Array_0 =~= json_seq_view(items@));
            JsonValue::Array(items)
        },
        _ => {
            let r = render_field_exec(k, v, 1);
            proof {
                match (k, value_view(*v)) {
                    (FieldKind::Msgs(MsgType::DebugMessage), Val::Msgs(_)) => {},
                    _ => {},
                }
            }
            r
        },
    }
}

fn render_response_exec(t: MsgType, vals: &Vec<ProtoValue>) -> (r: JsonValue)
    ensures
        json_view(r) == render_response(t, values_view(vals@)),
{
    let specs = crate::proto::fields_of(t);
    let keys = json_keys_of(t);
    let ghost vv = values_view(vals@);
    proof {
        lemma_json_keys_len(t);
        lemma_values_view(vals@);
    }
    let mut pairs: Vec<(String, JsonValue)> = Vec::new();
    let mut i: usize = 0;
    while i < specs.len()
        invariant
            i <= specs@.len(),
            specs@ == schema(t),
            keys@.len() == specs@.len(),
            forall|j: int| 0 <= j < keys@.len() ==> (#[trigger] keys@[j])@ == json_keys(t)[j],
            vv == values_view(vals@),
            vv.len() == vals@.len(),
            forall|j: int| 0 <= j < vals@.len() ==> #[trigger] vv[j] == value_view(vals@[j]),
            pairs@.len() == i,
            forall|j: int|
                0 <= j < i ==> (#[trigger] pairs@[j]).0@ == json_keys(t)[j] && json_view(pairs@[j].1)
                    == if j < vv.len() {
                    resp_field(schema(t)[j].1, vv[j])
                } else {
                    JsonV::Null
                },
        decreases specs@.len() - i,
    {
        let value = if i < vals.len() {
            resp_field_exec(specs[i].1, &vals[i])
        } else {
            JsonValue::Null
        };
        pairs.push((text(keys[i]), value));
        i = i + 1;
    }
    proof {
        lemma_json_pairs_view(pairs@);
    }
    assert(render_response(t, vv)->Object_0 =~= json_pairs_view(pairs@));
    JsonValue::Object(pairs)
}

/// The JSON of a data frame: its command, uuid, the payload decoded by the
/// command (debug messages unwrapped one by one; `null` for an unknown
/// command) and the command's name; an error object where the frame does
/// not decode.
pub fn unwrap_proto_to_data_format(data: &[u8]) -> (r: JsonValue)
    ensures
        json_view(r) == data_format_json(data@),
{
    match decode_data_format(data) {
        Err(e) => {
            let mut pairs: Vec<(String, JsonValue)> = Vec::new();
            pairs.push((text("error"), JsonValue::Str(e)));
            proof {
                lemma_json_pairs_view(pairs@);
            }
            assert(json_pairs_view(pairs@) =~= data_format_json(data@)->Object_0);
            JsonValue::Object(pairs)
        },
        Ok((cmd, uuid, payload)) => {
            let parsed = match response_type_exec(cmd) {
                Some(t) => {
                    let inner = crate::proto::decode_or_default_exec(t, payload.as_slice());
                    render_response_exec(t, &inner)
                },
                None => JsonValue::Null,
            };
            let mut pairs: Vec<(String, JsonValue)> = Vec::new();
            pairs.push((text("cmd"), JsonValue::Number(JsonNumber::PosInt(cmd as u64))));
            pairs.push((text("uuid"), JsonValue::Str(uuid)));
            pairs.push((text("data"), parsed));
            pairs.push((text("_comment"), JsonValue::Str(text(response_type_name(cmd)))));
            proof {
                lemma_json_pairs_view(pairs@);
            }
            assert(json_pairs_view(pairs@) =~= data_format_json(data@)->Object_0);
            JsonValue::Object(pairs)
        },
    }
}


/// A debug message whose category name and body can be written with
/// varint lengths.
pub open spec fn debug_message_fits(m: DebugMessage) -> bool {
    encode_utf8(m.category@).len() <= u64::MAX && m.data@.len() <= u64::MAX
}

/// Decoding the encoding of a debug message gives the message back.
pub proof fn lemma_debug_message_roundtrip(m: DebugMessage)
    requires
        debug_message_fits(m),
    ensures
        decode_spec(MsgType::DebugMessage, encode_spec(MsgType::DebugMessage, debug_message_vals(m)))
            == Some(debug_message_vals(m)),
{
    let vs = debug_message_vals(m);
    reveal_with_fuel(crate::proto::fits_from, 7);
    assert(crate::proto::message_fits(MsgType::DebugMessage, vs));
    crate::proto::lemma_decode_encode(MsgType::DebugMessage, vs);
}

/// Unwrapping the body that `wrap_debug_message_data` builds for a category
/// gives the JSON of the values it read from the object: for every category
/// it builds and every object whose values fit (as those of any object in
/// memory do; `wrap_debug_message_data` states this for its own result,
/// compressed or not).
pub proof fn lemma_wrap_unwrap(data: JsonV, c: DebugMessageCategory)
    requires
        wraps(c),
        crate::proto::message_fits(category_type(c), values_from_json(category_type(c), data)),
    ensures
        category_json(c, wrap_body(data, c)) == render_msg(
            category_type(c),
            values_from_json(category_type(c), data),
            2,
        ),
{
    crate::proto::lemma_decode_encode(category_type(c), values_from_json(category_type(c), data));
}

/// A text sent as its UTF-8 bytes is read back as the same text.
pub proof fn lemma_text_bytes_roundtrip(st: Seq<char>)
    ensures
        render_scalar(Val::Bytes(encode_utf8(st))) == JsonV::Str(st),
{
    encode_utf8_valid_utf8(st);
    encode_utf8_decode_utf8(st);
}

/// A ping wrapped from a JSON object and unwrapped again gives back its
/// `ping_id` and its `payload` as the same strings.
pub proof fn lemma_ping_roundtrip(data: JsonV)
    ensures
        render_msg(MsgType::Ping, values_from_json(MsgType::Ping, data), 2) == JsonV::Object(
            seq![
                ("ping_id"@, JsonV::Str(str_or_empty(data, "ping_id"@))),
                ("payload"@, JsonV::Str(str_or_empty(data, "payload"@))),
            ],
        ),
{
    lemma_text_bytes_roundtrip(str_or_empty(data, "payload"@));
    assert(render_msg(MsgType::Ping, values_from_json(MsgType::Ping, data), 2)->Object_0 =~= seq![
        ("ping_id"@, JsonV::Str(str_or_empty(data, "ping_id"@))),
        ("payload"@, JsonV::Str(str_or_empty(data, "payload"@))),
    ]);
}


/// The keys of the JSON of a message are the message's keys.
proof fn lemma_render_msg_keys(t: MsgType, vs: Seq<Val>, level: nat)
    ensures
        object_keys(render_msg(t, vs, level)) == json_keys(t),
{
    lemma_json_keys_len(t);
    assert(object_keys(render_msg(t, vs, level)) =~= json_keys(t));
}

/// The body of each category is read as that category's own message, and
/// its JSON has that message's keys: for every body, decodable or not.
pub proof fn lemma_category_bodies(c: DebugMessageCategory, b: Seq<u8>)
    ensures
        match c {
            DebugMessageCategory::SetupContext => category_json(c, b) == render_msg(
                MsgType::SetupContext,
                crate::proto::decode_or_default(MsgType::SetupContext, b),
                2,
            ) && object_keys(category_json(c, b)) == seq![
                "register_interface"@,
                "configure_js"@,
                "public_js_md5"@,
                "three_js_md5"@,
                "device_info"@,
                "support_compress_algo"@,
            ],
            DebugMessageCategory::CallInterface => category_json(c, b) == render_msg(
                MsgType::CallInterface,
                crate::proto::decode_or_default(MsgType::CallInterface, b),
                2,
            ) && object_keys(category_json(c, b)) == seq!["name"@, "method"@, "args"@, "call_id"@],
            DebugMessageCategory::CallInterfaceResult => category_json(c, b) == render_msg(
                MsgType::CallInterfaceResult,
                crate::proto::decode_or_default(MsgType::CallInterfaceResult, b),
                2,
            ) && object_keys(category_json(c, b)) == seq!["ret"@, "call_id"@, "debug_info"@],
            DebugMessageCategory::EvaluateJavascript => category_json(c, b) == render_msg(
                MsgType::EvaluateJavascript,
                crate::proto::decode_or_default(MsgType::EvaluateJavascript, b),
                2,
            ) && object_keys(category_json(c, b)) == seq!["script"@, "evaluate_id"@, "debug_info"@],
            DebugMessageCategory::EvaluateJavascriptResult => category_json(c, b) == render_msg(
                MsgType::EvaluateJavascriptResult,
                crate::proto::decode_or_default(MsgType::EvaluateJavascriptResult, b),
                2,
            ) && object_keys(category_json(c, b)) == seq!["ret"@, "evaluate_id"@],
            DebugMessageCategory::Breakpoint => category_json(c, b) == render_msg(
                MsgType::Breakpoint,
                crate::proto::decode_or_default(MsgType::Breakpoint, b),
                2,
            ) && object_keys(category_json(c, b)) == seq!["is_hit"@],
            DebugMessageCategory::Ping => category_json(c, b) == render_msg(
                MsgType::Ping,
                crate::proto::decode_or_default(MsgType::Ping, b),
                2,
            ) && object_keys(category_json(c, b)) == seq!["ping_id"@, "payload"@],
            DebugMessageCategory::Pong => category_json(c, b) == render_msg(
                MsgType::Pong,
                crate::proto::decode_or_default(MsgType::Pong, b),
                2,
            ) && object_keys(category_json(c, b)) == seq!["ping_id"@, "network_type"@, "payload"@],
            DebugMessageCategory::DomOp => category_json(c, b) == render_msg(
                MsgType::DomOp,
                crate::proto::decode_or_default(MsgType::DomOp, b),
                2,
            ) && object_keys(category_json(c, b)) == seq!["params"@, "webview_id"@],
            DebugMessageCategory::DomEvent => category_json(c, b) == render_msg(
                MsgType::DomEvent,
                crate::proto::decode_or_default(MsgType::DomEvent, b),
                2,
            ) && object_keys(category_json(c, b)) == seq!["params"@, "webview_id"@],
            DebugMessageCategory::NetworkDebugAPI => category_json(c, b) == render_msg(
                MsgType::NetworkDebugApi,
                crate::proto::decode_or_default(MsgType::NetworkDebugApi, b),
                2,
            ) && object_keys(category_json(c, b)) == seq![
                "api_name"@,
                "task_id"@,
                "request_headers"@,
                "timestamp"@,
            ],
            DebugMessageCategory::ChromeDevtools => category_json(c, b) == render_msg(
                MsgType::ChromeDevtools,
                crate::proto::decode_or_default(MsgType::ChromeDevtools, b),
                2,
            ) && object_keys(category_json(c, b)) == seq!["op_id"@, "payload"@, "jscontext_id"@],
            DebugMessageCategory::ChromeDevtoolsResult => category_json(c, b) == render_msg(
                MsgType::ChromeDevtoolsResult,
                crate::proto::decode_or_default(MsgType::ChromeDevtoolsResult, b),
                2,
            ) && object_keys(category_json(c, b)) == seq!["op_id"@, "payload"@, "jscontext_id"@],
            DebugMessageCategory::AddJsContext => category_json(c, b) == render_msg(
                MsgType::AddJsContext,
                crate::proto::decode_or_default(MsgType::AddJsContext, b),
                2,
            ) && object_keys(category_json(c, b)) == seq!["jscontext_id"@, "jscontext_name"@],
            DebugMessageCategory::RemoveJsContext => category_json(c, b) == render_msg(
                MsgType::RemoveJsContext,
                crate::proto::decode_or_default(MsgType::RemoveJsContext, b),
                2,
            ) && object_keys(category_json(c, b)) == seq!["jscontext_id"@],
            DebugMessageCategory::ConnectJsContext => category_json(c, b) == render_msg(
                MsgType::ConnectJsContext,
                crate::proto::decode_or_default(MsgType::ConnectJsContext, b),
                2,
            ) && object_keys(category_json(c, b)) == seq!["jscontext_id"@],
            DebugMessageCategory::CustomMessage => category_json(c, b) == render_msg(
                MsgType::CustomMessage,
                crate::proto::decode_or_default(MsgType::CustomMessage, b),
                2,
            ) && object_keys(category_json(c, b)) == seq!["method"@, "payload"@, "raw"@],
        },
{
    lemma_render_msg_keys(
        category_type(c),
        crate::proto::decode_or_default(category_type(c), b),
        2,
    );
}


/// The UTF-8 of every string that a JSON object holds under any key, alone
/// or in an array, can be written with a varint length (as for any object in
/// memory).
pub open spec fn json_texts_fit(data: JsonV) -> bool {
    &&& forall|k: Seq<char>| encode_utf8(#[trigger] str_or_empty(data, k)).len() <= u64::MAX
    &&& forall|k: Seq<char>, j: int|
        0 <= j < strs_or_empty(data, k).len() ==> encode_utf8(#[trigger] strs_or_empty(data, k)[j]).len()
            <= u64::MAX
}

proof fn lemma_values_from_json_fit(t: MsgType, data: JsonV)
    requires
        json_texts_fit(data),
    ensures
        crate::proto::message_fits(t, values_from_json(t, data)),
{
    let vs = values_from_json(t, data);
    assert forall|j: int| 0 <= j < schema(t).len() && j < vs.len() implies crate::proto::value_fits(
        schema(t)[j].1,
        #[trigger] vs[j],
    ) by {
        let k = json_keys(t)[j];
        assert(vs[j] == json_field_value(schema(t)[j].1, data, k));
        let ss = strs_or_empty(data, k);
        assert forall|q: int| 0 <= q < ss.len() implies encode_utf8(#[trigger] ss[q]).len() <= u64::MAX by {
            assert(encode_utf8(strs_or_empty(data, k)[q]).len() <= u64::MAX);
        }
        assert(encode_utf8(str_or_empty(data, k)).len() <= u64::MAX);
    }
    lemma_fits_from(t, vs, 0);
}

/// Each category that is built from JSON gets a body that decodes, as that
/// category's own message, to the values read from the object under the
/// category's keys (strings as strings, a ping's payload as its UTF-8, the
/// operation id cut to 32 bits); every other category gets an empty body.
/// For every object whose strings fit.
#[verifier::spinoff_prover]
#[verifier::rlimit(60)]
pub proof fn lemma_wrapped_bodies(data: JsonV, c: DebugMessageCategory)
    requires
        json_texts_fit(data),
    ensures
        match c {
            DebugMessageCategory::CallInterface => crate::proto::decode_spec(
                MsgType::CallInterface,
                wrap_spec(data, c, 0).0,
            ) == Some(seq![Val::Str(str_or_empty(data, "name"@)), Val::Str(str_or_empty(data, "method"@)), Val::Strs(strs_or_empty(data, "args"@)), Val::Str(str_or_empty(data, "call_id"@))]),
            DebugMessageCategory::EvaluateJavascriptResult => crate::proto::decode_spec(
                MsgType::EvaluateJavascriptResult,
                wrap_spec(data, c, 0).0,
            ) == Some(seq![Val::Str(str_or_empty(data, "ret"@)), Val::Str(str_or_empty(data, "evaluate_id"@))]),
            DebugMessageCategory::Ping => crate::proto::decode_spec(
                MsgType::Ping,
                wrap_spec(data, c, 0).0,
            ) == Some(seq![Val::Str(str_or_empty(data, "ping_id"@)), Val::Bytes(encode_utf8(str_or_empty(data, "payload"@)))]),
            DebugMessageCategory::Breakpoint => crate::proto::decode_spec(
                MsgType::Breakpoint,
                wrap_spec(data, c, 0).0,
            ) == Some(seq![Val::Bool(bool_or_false(data, "is_hit"@))]),
            DebugMessageCategory::DomOp => crate::proto::decode_spec(
                MsgType::DomOp,
                wrap_spec(data, c, 0).0,
            ) == Some(seq![Val::Str(str_or_empty(data, "params"@)), Val::Str(str_or_empty(data, "webview_id"@))]),
            DebugMessageCategory::DomEvent => crate::proto::decode_spec(
                MsgType::DomEvent,
                wrap_spec(data, c, 0).0,
            ) == Some(seq![Val::Str(str_or_empty(data, "params"@)), Val::Str(str_or_empty(data, "webview_id"@))]),
            DebugMessageCategory::ChromeDevtools => crate::proto::decode_spec(
                MsgType::ChromeDevtools,
                wrap_spec(data, c, 0).0,
            ) == Some(seq![Val::U32(u64_or_zero(data, "op_id"@) as u32), Val::Str(str_or_empty(data, "payload"@)), Val::Str(str_or_empty(data, "jscontext_id"@))]),
            DebugMessageCategory::ConnectJsContext => crate::proto::decode_spec(
                MsgType::ConnectJsContext,
                wrap_spec(data, c, 0).0,
            ) == Some(seq![Val::Str(str_or_empty(data, "jscontext_id"@))]),
            DebugMessageCategory::CustomMessage => crate::proto::decode_spec(
                MsgType::CustomMessage,
                wrap_spec(data, c, 0).0,
            ) == Some(seq![Val::Str(str_or_empty(data, "method"@)), Val::Str(str_or_empty(data, "payload"@)), Val::Str(str_or_empty(data, "raw"@))]),
            _ => wrap_spec(data, c, 0).0 == Seq::<u8>::empty(),
        },
{
    assert(0u32 & 1u32 == 0u32) by (bit_vector);
    if wraps(c) {
        lemma_values_from_json_fit(category_type(c), data);
        crate::proto::lemma_decode_encode(category_type(c), values_from_json(category_type(c), data));
    }
    match c {
        DebugMessageCategory::CallInterface => {
            assert(values_from_json(MsgType::CallInterface, data) =~= seq![Val::Str(str_or_empty(data, "name"@)), Val::Str(str_or_empty(data, "method"@)), Val::Strs(strs_or_empty(data, "args"@)), Val::Str(str_or_empty(data, "call_id"@))]);
        },
        DebugMessageCategory::EvaluateJavascriptResult => {
            assert(values_from_json(MsgType::EvaluateJavascriptResult, data) =~= seq![Val::Str(str_or_empty(data, "ret"@)), Val::Str(str_or_empty(data, "evaluate_id"@))]);
        },
        DebugMessageCategory::Ping => {
            assert(values_from_json(MsgType::Ping, data) =~= seq![Val::Str(str_or_empty(data, "ping_id"@)), Val::Bytes(encode_utf8(str_or_empty(data, "payload"@)))]);
        },
        DebugMessageCategory::Breakpoint => {
            assert(values_from_json(MsgType::Breakpoint, data) =~= seq![Val::Bool(bool_or_false(data, "is_hit"@))]);
        },
        DebugMessageCategory::DomOp => {
            assert(values_from_json(MsgType::DomOp, data) =~= seq![Val::Str(str_or_empty(data, "params"@)), Val::Str(str_or_empty(data, "webview_id"@))]);
        },
        DebugMessageCategory::DomEvent => {
            assert(values_from_json(MsgType::DomEvent, data) =~= seq![Val::Str(str_or_empty(data, "params"@)), Val::Str(str_or_empty(data, "webview_id"@))]);
        },
        DebugMessageCategory::ChromeDevtools => {
            assert(values_from_json(MsgType::ChromeDevtools, data) =~= seq![Val::U32(u64_or_zero(data, "op_id"@) as u32), Val::Str(str_or_empty(data, "payload"@)), Val::Str(str_or_empty(data, "jscontext_id"@))]);
        },
        DebugMessageCategory::ConnectJsContext => {
            assert(values_from_json(MsgType::ConnectJsContext, data) =~= seq![Val::Str(str_or_empty(data, "jscontext_id"@))]);
        },
        DebugMessageCategory::CustomMessage => {
            assert(values_from_json(MsgType::CustomMessage, data) =~= seq![Val::Str(str_or_empty(data, "method"@)), Val::Str(str_or_empty(data, "payload"@)), Val::Str(str_or_empty(data, "raw"@))]);
        },
        _ => {},
    }
}


/// The notified debug messages of a notification body, each unwrapped, in
/// order.
pub open spec fn notified_messages(payload: Seq<u8>) -> JsonV {
    let ms = crate::proto::decode_or_default(MsgType::MessageNotify, payload)[0]->Msgs_0;
    JsonV::Object(
        seq![("debug_message"@, JsonV::Array(Seq::new(ms.len(), |j: int| unwrap_vals(ms[j]))))],
    )
}

/// The JSON of a decoded data frame with the given command, uuid, payload
/// JSON and name.
pub open spec fn frame_json(cmd: u32, uuid: Seq<char>, d: JsonV, name: Seq<char>) -> JsonV {
    JsonV::Object(
        seq![
            ("cmd"@, JsonV::Number(JsonNumber::PosInt(cmd as u64))),
            ("uuid"@, JsonV::Str(uuid)),
            ("data"@, d),
            ("_comment"@, JsonV::Str(name)),
        ],
    )
}

/// What each command's data frame unwraps to: both notifications (1000, and
/// 1006 sent in parallel) list their debug messages unwrapped one by one;
/// each reply is read as its own message; the event notifications 3001 to
/// 3003 carry a base response; any other command gives `null` with the name
/// `Unknown`.
pub proof fn lemma_data_frame_by_command(data: Seq<u8>)
    ensures
        data_format_decode(data) matches Ok((cmd, uuid, payload)) ==> {
            if cmd == 1000 {
                data_format_json(data) == frame_json(cmd, uuid, notified_messages(payload), "MessageNotify"@)
            } else if cmd == 1006 {
                data_format_json(data) == frame_json(cmd, uuid, 
                    notified_messages(payload),
                    "MessageNotifyParallelly"@,
                )
            } else if cmd == 2000 {
                data_format_json(data) == frame_json(cmd, uuid, 
                    render_response(MsgType::SendDebugMessageResp, crate::proto::decode_or_default(MsgType::SendDebugMessageResp, payload)),
                    "SendDebugMessage"@,
                )
            } else if cmd == 2001 {
                data_format_json(data) == frame_json(cmd, uuid, 
                    render_response(MsgType::DevHeartBeatResp, crate::proto::decode_or_default(MsgType::DevHeartBeatResp, payload)),
                    "Heartbeat"@,
                )
            } else if cmd == 2002 {
                data_format_json(data) == frame_json(cmd, uuid, 
                    render_response(MsgType::DevLoginResp, crate::proto::decode_or_default(MsgType::DevLoginResp, payload)),
                    "Login"@,
                )
            } else if cmd == 2003 {
                data_format_json(data) == frame_json(cmd, uuid, 
                    render_response(MsgType::DevJoinRoomResp, crate::proto::decode_or_default(MsgType::DevJoinRoomResp, payload)),
                    "JoinRoom"@,
                )
            } else if cmd == 2004 {
                data_format_json(data) == frame_json(cmd, uuid, 
                    render_response(MsgType::DevQuitRoomResp, crate::proto::decode_or_default(MsgType::DevQuitRoomResp, payload)),
                    "QuitRoom"@,
                )
            } else if cmd == 2005 {
                data_format_json(data) == frame_json(cmd, uuid, 
                    render_response(MsgType::DevSyncMessageResp, crate::proto::decode_or_default(MsgType::DevSyncMessageResp, payload)),
                    "SyncMessage"@,
                )
            } else if cmd == 2006 {
                data_format_json(data) == frame_json(cmd, uuid, 
                    render_response(MsgType::NewSendDebugMessageResp, crate::proto::decode_or_default(MsgType::NewSendDebugMessageResp, payload)),
                    "SendDebugMessageParallelly"@,
                )
            } else if 3001 <= cmd <= 3003 {
                data_format_json(data) == frame_json(cmd, uuid, 
                    render_response(MsgType::EventNotify, crate::proto::decode_or_default(MsgType::EventNotify, payload)),
                    "EventNotify"@,
                )
            } else {
                data_format_json(data) == frame_json(cmd, uuid, JsonV::Null, "Unknown"@)
            }
        },
{
    if let Ok((cmd, uuid, payload)) = data_format_decode(data) {
        let d = match response_type(cmd) {
            Some(t) => render_response(t, crate::proto::decode_or_default(t, payload)),
            None => JsonV::Null,
        };
        assert(data_format_json(data) == frame_json(cmd, uuid, d, response_type_name_spec(cmd))) by {
            assert(data_format_json(data)->Object_0 =~= frame_json(
                cmd,
                uuid,
                d,
                response_type_name_spec(cmd),
            )->Object_0);
        }
        if cmd == 1000 || cmd == 1006 {
            let vs = crate::proto::decode_or_default(MsgType::MessageNotify, payload);
            crate::proto::lemma_decode_shape(MsgType::MessageNotify, payload);
            crate::proto::lemma_decode_shape(MsgType::MessageNotify, Seq::empty());
            crate::proto::lemma_decode_empty(MsgType::MessageNotify);
            assert(crate::proto::kind_matches(schema(MsgType::MessageNotify)[0].1, vs[0]));
            let ms = vs[0]->Msgs_0;
            assert(vs[0] == Val::Msgs(ms));
            assert(render_response(MsgType::MessageNotify, vs)->Object_0 =~= notified_messages(
                payload,
            )->Object_0);
            assert(render_response(MsgType::MessageNotify, vs) == notified_messages(payload));
            assert(response_type(cmd) == Some(MsgType::MessageNotify));
        }
    }
}

} // verus!
