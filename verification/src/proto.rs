//! The messages of the WeChat remote-debug protocol, described by a table
//! of fields per message, and the decoding of message bodies into field
//! values by that table, with protobuf's rules: a scalar field takes the
//! last value that stands for it, a repeated field every value in order, an
//! embedded message the merge of every occurrence; a field of known number
//! with the wrong wire type, a string that is not UTF-8 and a malformed body
//! all make the message fail.

use vstd::prelude::*;
use vstd::utf8::*;
use crate::wire::{
    field_bytes, field_ok, fields_bytes, fields_view, lemma_fields_bytes_concat,
    lemma_fields_bytes_single, parse_fields,
    parse_fields_spec, put_bytes_field, put_fixed32_field, put_varint_field, wire_kind, WireField,
    WireKind, WireVal, WireValue, MAX_FIELD_NUMBER,
};

verus! {

/// Nesting depth at which decoding gives up, as `prost` does.
pub const RECURSION_LIMIT: u32 = 100;

/// The messages of the protocol.
#[derive(Clone, Copy, Debug, PartialEq, Eq, Structural)]
pub enum MsgType {
    DebugMessage,
    DataFormat,
    MessageNotify,
    BaseResp,
    SendDebugMessageResp,
    DevLoginResp,
    RoomInfo,
    DevJoinRoomResp,
    DevHeartBeatResp,
    DevQuitRoomResp,
    NewSendDebugMessageResp,
    DevSyncMessageResp,
    EventNotify,
    Breakpoint,
    CallInterface,
    CallInterfaceResult,
    EvaluateJavascript,
    EvaluateJavascriptResult,
    Ping,
    Pong,
    SetupContext,
    RegisterInterface,
    ObjMethod,
    DeviceInfo,
    DomOp,
    DomEvent,
    NetworkDebugApi,
    ChromeDevtools,
    ChromeDevtoolsResult,
    AddJsContext,
    RemoveJsContext,
    ConnectJsContext,
    CustomMessage,
}

/// The protobuf type of a field.
#[derive(Clone, Copy, Debug, PartialEq, Eq, Structural)]
pub enum FieldKind {
    /// `uint32`
    U32,
    /// `int32`
    I32,
    /// `uint64`
    U64,
    /// `bool`
    Bool,
    /// `string`
    Str,
    /// `bytes`
    Bytes,
    /// `float`, held as its bit pattern
    F32,
    /// `repeated string`
    Strs,
    /// an embedded message, absent or present
    Msg(MsgType),
    /// `repeated` embedded messages
    Msgs(MsgType),
}

/// The fields of each message: field number and type, in field-number order.
pub open spec fn schema(t: MsgType) -> Seq<(u32, FieldKind)> {
    match t {
        MsgType::DebugMessage => seq![
            (1u32, FieldKind::U32),
            (2u32, FieldKind::U32),
            (3u32, FieldKind::Str),
            (4u32, FieldKind::Bytes),
            (5u32, FieldKind::U32),
            (6u32, FieldKind::U32),
        ],
        MsgType::DataFormat => seq![(1u32, FieldKind::U32), (2u32, FieldKind::Str), (3u32, FieldKind::Bytes)],
        MsgType::MessageNotify => seq![(1u32, FieldKind::Msgs(MsgType::DebugMessage))],
        MsgType::BaseResp => seq![(1u32, FieldKind::I32), (2u32, FieldKind::Str)],
        MsgType::SendDebugMessageResp => seq![
            (1u32, FieldKind::Msg(MsgType::BaseResp)),
            (2u32, FieldKind::U32),
        ],
        MsgType::DevLoginResp => seq![
            (1u32, FieldKind::Msg(MsgType::BaseResp)),
            (2u32, FieldKind::Msg(MsgType::RoomInfo)),
        ],
        MsgType::RoomInfo => seq![
            (1u32, FieldKind::U32),
            (2u32, FieldKind::Str),
            (3u32, FieldKind::U32),
            (4u32, FieldKind::U32),
            (5u32, FieldKind::U32),
            (6u32, FieldKind::Str),
        ],
        MsgType::DevJoinRoomResp => seq![(1u32, FieldKind::Msg(MsgType::BaseResp))],
        MsgType::DevHeartBeatResp => seq![(1u32, FieldKind::Msg(MsgType::BaseResp))],
        MsgType::DevQuitRoomResp => seq![(1u32, FieldKind::Msg(MsgType::BaseResp))],
        MsgType::NewSendDebugMessageResp => seq![
            (1u32, FieldKind::Msg(MsgType::BaseResp)),
            (2u32, FieldKind::U32),
            (3u32, FieldKind::U32),
        ],
        MsgType::DevSyncMessageResp => seq![
            (1u32, FieldKind::Msg(MsgType::BaseResp)),
            (2u32, FieldKind::Msgs(MsgType::DebugMessage)),
            (3u32, FieldKind::U32),
        ],
        MsgType::EventNotify => seq![(1u32, FieldKind::Msg(MsgType::BaseResp))],
        MsgType::Breakpoint => seq![(1u32, FieldKind::Bool)],
        MsgType::CallInterface => seq![
            (1u32, FieldKind::Str),
            (2u32, FieldKind::Str),
            (3u32, FieldKind::Strs),
            (4u32, FieldKind::Str),
        ],
        MsgType::CallInterfaceResult => seq![(1u32, FieldKind::Str), (2u32, FieldKind::Str), (3u32, FieldKind::Str)],
        MsgType::EvaluateJavascript => seq![(1u32, FieldKind::Str), (2u32, FieldKind::Str), (3u32, FieldKind::Str)],
        MsgType::EvaluateJavascriptResult => seq![(1u32, FieldKind::Str), (2u32, FieldKind::Str)],
        MsgType::Ping => seq![(1u32, FieldKind::Str), (2u32, FieldKind::Bytes)],
        MsgType::Pong => seq![(1u32, FieldKind::Str), (2u32, FieldKind::U32), (3u32, FieldKind::Bytes)],
        MsgType::SetupContext => seq![
            (1u32, FieldKind::Msg(MsgType::RegisterInterface)),
            (2u32, FieldKind::Str),
            (3u32, FieldKind::Str),
            (4u32, FieldKind::Str),
            (5u32, FieldKind::Msg(MsgType::DeviceInfo)),
            (6u32, FieldKind::U32),
        ],
        MsgType::RegisterInterface => seq![(1u32, FieldKind::Str), (2u32, FieldKind::Msgs(MsgType::ObjMethod))],
        MsgType::ObjMethod => seq![(1u32, FieldKind::Str), (2u32, FieldKind::Strs)],
        MsgType::DeviceInfo => seq![
            (1u32, FieldKind::Str),
            (2u32, FieldKind::Str),
            (3u32, FieldKind::Str),
            (4u32, FieldKind::Str),
            (5u32, FieldKind::F32),
            (6u32, FieldKind::U32),
            (7u32, FieldKind::Str),
            (8u32, FieldKind::Str),
        ],
        MsgType::DomOp => seq![(1u32, FieldKind::Str), (2u32, FieldKind::Str)],
        MsgType::DomEvent => seq![(1u32, FieldKind::Str), (2u32, FieldKind::Str)],
        MsgType::NetworkDebugApi => seq![
            (1u32, FieldKind::Str),
            (2u32, FieldKind::Str),
            (3u32, FieldKind::Str),
            (4u32, FieldKind::U64),
        ],
        MsgType::ChromeDevtools => seq![(1u32, FieldKind::U32), (2u32, FieldKind::Str), (3u32, FieldKind::Str)],
        MsgType::ChromeDevtoolsResult => seq![(1u32, FieldKind::U32), (2u32, FieldKind::Str), (3u32, FieldKind::Str)],
        MsgType::AddJsContext => seq![(1u32, FieldKind::Str), (2u32, FieldKind::Str)],
        MsgType::RemoveJsContext => seq![(1u32, FieldKind::Str)],
        MsgType::ConnectJsContext => seq![(1u32, FieldKind::Str)],
        MsgType::CustomMessage => seq![(1u32, FieldKind::Str), (2u32, FieldKind::Str), (3u32, FieldKind::Str)],
    }
}

/// The field table of a message.
pub fn fields_of(t: MsgType) -> (r: Vec<(u32, FieldKind)>)
    ensures
        r@ == schema(t),
{
    let r = match t {
        MsgType::DebugMessage => vec![
            (1u32, FieldKind::U32),
            (2u32, FieldKind::U32),
            (3u32, FieldKind::Str),
            (4u32, FieldKind::Bytes),
            (5u32, FieldKind::U32),
            (6u32, FieldKind::U32),
        ],
        MsgType::DataFormat => vec![(1u32, FieldKind::U32), (2u32, FieldKind::Str), (3u32, FieldKind::Bytes)],
        MsgType::MessageNotify => vec![(1u32, FieldKind::Msgs(MsgType::DebugMessage))],
        MsgType::BaseResp => vec![(1u32, FieldKind::I32), (2u32, FieldKind::Str)],
        MsgType::SendDebugMessageResp => vec![
            (1u32, FieldKind::Msg(MsgType::BaseResp)),
            (2u32, FieldKind::U32),
        ],
        MsgType::DevLoginResp => vec![
            (1u32, FieldKind::Msg(MsgType::BaseResp)),
            (2u32, FieldKind::Msg(MsgType::RoomInfo)),
        ],
        MsgType::RoomInfo => vec![
            (1u32, FieldKind::U32),
            (2u32, FieldKind::Str),
            (3u32, FieldKind::U32),
            (4u32, FieldKind::U32),
            (5u32, FieldKind::U32),
            (6u32, FieldKind::Str),
        ],
        MsgType::DevJoinRoomResp => vec![(1u32, FieldKind::Msg(MsgType::BaseResp))],
        MsgType::DevHeartBeatResp => vec![(1u32, FieldKind::Msg(MsgType::BaseResp))],
        MsgType::DevQuitRoomResp => vec![(1u32, FieldKind::Msg(MsgType::BaseResp))],
        MsgType::NewSendDebugMessageResp => vec![
            (1u32, FieldKind::Msg(MsgType::BaseResp)),
            (2u32, FieldKind::U32),
            (3u32, FieldKind::U32),
        ],
        MsgType::DevSyncMessageResp => vec![
            (1u32, FieldKind::Msg(MsgType::BaseResp)),
            (2u32, FieldKind::Msgs(MsgType::DebugMessage)),
            (3u32, FieldKind::U32),
        ],
        MsgType::EventNotify => vec![(1u32, FieldKind::Msg(MsgType::BaseResp))],
        MsgType::Breakpoint => vec![(1u32, FieldKind::Bool)],
        MsgType::CallInterface => vec![
            (1u32, FieldKind::Str),
            (2u32, FieldKind::Str),
            (3u32, FieldKind::Strs),
            (4u32, FieldKind::Str),
        ],
        MsgType::CallInterfaceResult => vec![(1u32, FieldKind::Str), (2u32, FieldKind::Str), (3u32, FieldKind::Str)],
        MsgType::EvaluateJavascript => vec![(1u32, FieldKind::Str), (2u32, FieldKind::Str), (3u32, FieldKind::Str)],
        MsgType::EvaluateJavascriptResult => vec![(1u32, FieldKind::Str), (2u32, FieldKind::Str)],
        MsgType::Ping => vec![(1u32, FieldKind::Str), (2u32, FieldKind::Bytes)],
        MsgType::Pong => vec![(1u32, FieldKind::Str), (2u32, FieldKind::U32), (3u32, FieldKind::Bytes)],
        MsgType::SetupContext => vec![
            (1u32, FieldKind::Msg(MsgType::RegisterInterface)),
            (2u32, FieldKind::Str),
            (3u32, FieldKind::Str),
            (4u32, FieldKind::Str),
            (5u32, FieldKind::Msg(MsgType::DeviceInfo)),
            (6u32, FieldKind::U32),
        ],
        MsgType::RegisterInterface => vec![(1u32, FieldKind::Str), (2u32, FieldKind::Msgs(MsgType::ObjMethod))],
        MsgType::ObjMethod => vec![(1u32, FieldKind::Str), (2u32, FieldKind::Strs)],
        MsgType::DeviceInfo => vec![
            (1u32, FieldKind::Str),
            (2u32, FieldKind::Str),
            (3u32, FieldKind::Str),
            (4u32, FieldKind::Str),
            (5u32, FieldKind::F32),
            (6u32, FieldKind::U32),
            (7u32, FieldKind::Str),
            (8u32, FieldKind::Str),
        ],
        MsgType::DomOp => vec![(1u32, FieldKind::Str), (2u32, FieldKind::Str)],
        MsgType::DomEvent => vec![(1u32, FieldKind::Str), (2u32, FieldKind::Str)],
        MsgType::NetworkDebugApi => vec![
            (1u32, FieldKind::Str),
            (2u32, FieldKind::Str),
            (3u32, FieldKind::Str),
            (4u32, FieldKind::U64),
        ],
        MsgType::ChromeDevtools => vec![(1u32, FieldKind::U32), (2u32, FieldKind::Str), (3u32, FieldKind::Str)],
        MsgType::ChromeDevtoolsResult => vec![(1u32, FieldKind::U32), (2u32, FieldKind::Str), (3u32, FieldKind::Str)],
        MsgType::AddJsContext => vec![(1u32, FieldKind::Str), (2u32, FieldKind::Str)],
        MsgType::RemoveJsContext => vec![(1u32, FieldKind::Str)],
        MsgType::ConnectJsContext => vec![(1u32, FieldKind::Str)],
        MsgType::CustomMessage => vec![(1u32, FieldKind::Str), (2u32, FieldKind::Str), (3u32, FieldKind::Str)],
    };
    assert(r@ =~= schema(t));
    r
}

/// Field numbers of a message table stand in increasing order, each one
/// that protobuf allows.
pub open spec fn schema_ok(fields: Seq<(u32, FieldKind)>) -> bool {
    &&& forall|i: int| 0 <= i < fields.len() ==> 1 <= #[trigger] fields[i].0 <= MAX_FIELD_NUMBER
    &&& forall|i: int, j: int| 0 <= i < j < fields.len() ==> #[trigger] fields[i].0 < #[trigger] fields[j].0
}

pub proof fn lemma_schema_ok(t: MsgType)
    ensures
        schema_ok(schema(t)),
{
}

/// A decoded field value.
pub enum Val {
    U32(u32),
    I32(i32),
    U64(u64),
    Bool(bool),
    Str(Seq<char>),
    Bytes(Seq<u8>),
    F32(u32),
    Strs(Seq<Seq<char>>),
    Msg(Option<Seq<Val>>),
    Msgs(Seq<Seq<Val>>),
}

/// The values of a field number, in the order in which they stand.
pub open spec fn occurrences(fs: Seq<(u32, WireVal)>, tag: u32) -> Seq<WireVal>
    decreases fs.len(),
{
    if fs.len() == 0 {
        Seq::empty()
    } else {
        let rest = occurrences(fs.drop_last(), tag);
        if fs.last().0 == tag {
            rest.push(fs.last().1)
        } else {
            rest
        }
    }
}

pub open spec fn all_kind(occ: Seq<WireVal>, k: WireKind) -> bool {
    forall|i: int| 0 <= i < occ.len() ==> wire_kind(#[trigger] occ[i]) == k
}

pub open spec fn varint_of(w: WireVal) -> u64 {
    match w {
        WireVal::Varint(x) => x,
        _ => 0,
    }
}

pub open spec fn fixed32_of(w: WireVal) -> u32 {
    match w {
        WireVal::Fixed32(x) => x,
        _ => 0,
    }
}

pub open spec fn bytes_of(w: WireVal) -> Seq<u8> {
    match w {
        WireVal::Bytes(b) => b,
        _ => Seq::empty(),
    }
}

/// The last varint, or 0 where there is none.
pub open spec fn last_varint(occ: Seq<WireVal>) -> u64 {
    if occ.len() == 0 {
        0
    } else {
        varint_of(occ.last())
    }
}

pub open spec fn last_fixed32(occ: Seq<WireVal>) -> u32 {
    if occ.len() == 0 {
        0
    } else {
        fixed32_of(occ.last())
    }
}

pub open spec fn last_bytes(occ: Seq<WireVal>) -> Seq<u8> {
    if occ.len() == 0 {
        Seq::empty()
    } else {
        bytes_of(occ.last())
    }
}

pub open spec fn all_utf8(occ: Seq<WireVal>) -> bool {
    forall|i: int| 0 <= i < occ.len() ==> valid_utf8(bytes_of(#[trigger] occ[i]))
}

pub open spec fn all_parse(occ: Seq<WireVal>) -> bool {
    forall|i: int| 0 <= i < occ.len() ==> (#[trigger] parse_fields_spec(bytes_of(occ[i]))) is Some
}

pub open spec fn strings_of(occ: Seq<WireVal>) -> Seq<Seq<char>> {
    occ.map_values(|w: WireVal| decode_utf8(bytes_of(w)))
}

/// The fields of every occurrence of an embedded message, one after another.
pub open spec fn flatten(occ: Seq<WireVal>) -> Seq<(u32, WireVal)>
    decreases occ.len(),
{
    if occ.len() == 0 {
        Seq::empty()
    } else {
        flatten(occ.drop_last()) + parse_fields_spec(bytes_of(occ.last())).unwrap()
    }
}

/// The value of a field of type `k` from its occurrences; `None` where the
/// message fails.
pub open spec fn field_value(k: FieldKind, occ: Seq<WireVal>, limit: nat) -> Option<Val>
    decreases limit, 1nat, 0nat,
{
    match k {
        FieldKind::U32 => if all_kind(occ, WireKind::Varint) {
            Some(Val::U32(last_varint(occ) as u32))
        } else {
            None
        },
        FieldKind::I32 => if all_kind(occ, WireKind::Varint) {
            Some(Val::I32(last_varint(occ) as i32))
        } else {
            None
        },
        FieldKind::U64 => if all_kind(occ, WireKind::Varint) {
            Some(Val::U64(last_varint(occ)))
        } else {
            None
        },
        FieldKind::Bool => if all_kind(occ, WireKind::Varint) {
            Some(Val::Bool(last_varint(occ) != 0))
        } else {
            None
        },
        FieldKind::F32 => if all_kind(occ, WireKind::Fixed32) {
            Some(Val::F32(last_fixed32(occ)))
        } else {
            None
        },
        FieldKind::Bytes => if all_kind(occ, WireKind::LengthDelimited) {
            Some(Val::Bytes(last_bytes(occ)))
        } else {
            None
        },
        FieldKind::Str => if all_kind(occ, WireKind::LengthDelimited) && all_utf8(occ) {
            Some(Val::Str(decode_utf8(last_bytes(occ))))
        } else {
            None
        },
        FieldKind::Strs => if all_kind(occ, WireKind::LengthDelimited) && all_utf8(occ) {
            Some(Val::Strs(strings_of(occ)))
        } else {
            None
        },
        FieldKind::Msg(t) => if !(all_kind(occ, WireKind::LengthDelimited) && all_parse(occ)) {
            None
        } else if occ.len() == 0 {
            Some(Val::Msg(None))
        } else if limit == 0 {
            None
        } else {
            match decode_from(t, flatten(occ), 0, (limit - 1) as nat) {
                None => None,
                Some(v) => Some(Val::Msg(Some(v))),
            }
        },
        FieldKind::Msgs(t) => if !(all_kind(occ, WireKind::LengthDelimited) && all_parse(occ)) {
            None
        } else if occ.len() == 0 {
            Some(Val::Msgs(Seq::empty()))
        } else if limit == 0 {
            None
        } else {
            match decode_each(t, occ, (limit - 1) as nat) {
                None => None,
                Some(v) => Some(Val::Msgs(v)),
            }
        },
    }
}

/// Decodes each occurrence of a repeated embedded message on its own.
pub open spec fn decode_each(t: MsgType, occ: Seq<WireVal>, limit: nat) -> Option<Seq<Seq<Val>>>
    decreases limit, 3nat, occ.len(),
{
    if occ.len() == 0 {
        Some(Seq::empty())
    } else {
        match decode_each(t, occ.drop_last(), limit) {
            None => None,
            Some(front) => match parse_fields_spec(bytes_of(occ.last())) {
                None => None,
                Some(fs) => match decode_from(t, fs, 0, limit) {
                    None => None,
                    Some(v) => Some(front.push(v)),
                },
            },
        }
    }
}

/// The values of the fields of `t` from number `i` on.
pub open spec fn decode_from(t: MsgType, fs: Seq<(u32, WireVal)>, i: nat, limit: nat) -> Option<
    Seq<Val>,
>
    decreases limit, 2nat, schema(t).len() - i,
{
    if i >= schema(t).len() {
        Some(Seq::empty())
    } else {
        match field_value(schema(t)[i as int].1, occurrences(fs, schema(t)[i as int].0), limit) {
            None => None,
            Some(v) => match decode_from(t, fs, i + 1, limit) {
                None => None,
                Some(rest) => Some(seq![v] + rest),
            },
        }
    }
}

/// The values of the fields of a message of type `t` encoded in `bytes`, in
/// table order; `None` where decoding fails.
pub open spec fn decode_spec(t: MsgType, bytes: Seq<u8>) -> Option<Seq<Val>> {
    match parse_fields_spec(bytes) {
        None => None,
        Some(fs) => decode_from(t, fs, 0, RECURSION_LIMIT as nat),
    }
}


/// A decoded field value, as the library holds it.
pub enum ProtoValue {
    U32(u32),
    I32(i32),
    U64(u64),
    Bool(bool),
    Str(String),
    Bytes(Vec<u8>),
    F32(u32),
    Strs(Vec<String>),
    Msg(Option<Vec<ProtoValue>>),
    Msgs(Vec<Vec<ProtoValue>>),
}

pub open spec fn value_view(v: ProtoValue) -> Val
    decreases v,
{
    match v {
        ProtoValue::U32(x) => Val::U32(x),
        ProtoValue::I32(x) => Val::I32(x),
        ProtoValue::U64(x) => Val::U64(x),
        ProtoValue::Bool(x) => Val::Bool(x),
        ProtoValue::Str(s) => Val::Str(s@),
        ProtoValue::Bytes(b) => Val::Bytes(b@),
        ProtoValue::F32(x) => Val::F32(x),
        ProtoValue::Strs(ss) => Val::Strs(ss@.map_values(|s: String| s@)),
        ProtoValue::Msg(None) => Val::Msg(None),
        ProtoValue::Msg(Some(vs)) => Val::Msg(Some(values_view(vs@))),
        ProtoValue::Msgs(ms) => Val::Msgs(messages_view(ms@)),
    }
}

pub open spec fn values_view(s: Seq<ProtoValue>) -> Seq<Val>
    decreases s,
{
    if s.len() == 0 {
        Seq::empty()
    } else {
        values_view(s.drop_last()).push(value_view(s[s.len() - 1]))
    }
}

pub open spec fn messages_view(s: Seq<Vec<ProtoValue>>) -> Seq<Seq<Val>>
    decreases s,
{
    if s.len() == 0 {
        Seq::empty()
    } else {
        messages_view(s.drop_last()).push(values_view(s[s.len() - 1]@))
    }
}

impl View for ProtoValue {
    type V = Val;

    open spec fn view(&self) -> Val {
        value_view(*self)
    }
}

pub proof fn lemma_values_view(s: Seq<ProtoValue>)
    ensures
        values_view(s).len() == s.len(),
        forall|i: int| 0 <= i < s.len() ==> #[trigger] values_view(s)[i] == value_view(s[i]),
    decreases s.len(),
{
    if s.len() > 0 {
        lemma_values_view(s.drop_last());
    }
}

pub proof fn lemma_messages_view(s: Seq<Vec<ProtoValue>>)
    ensures
        messages_view(s).len() == s.len(),
        forall|i: int| 0 <= i < s.len() ==> #[trigger] messages_view(s)[i] == values_view(s[i]@),
    decreases s.len(),
{
    if s.len() > 0 {
        lemma_messages_view(s.drop_last());
    }
}

/// Turns bytes into a `String` where they are UTF-8.
///
/// Calls `String::from_utf8`, which the contract takes to succeed exactly on
/// valid UTF-8 and to give the characters it encodes.
#[verifier::external_body]
pub(crate) fn string_from_utf8(bytes: Vec<u8>) -> (r: Option<String>)
    ensures
        r is Some <==> valid_utf8(bytes@),
        r matches Some(s) ==> s@ == decode_utf8(bytes@),
{
    match String::from_utf8(bytes) {
        Ok(s) => Some(s),
        Err(_) => None,
    }
}

proof fn lemma_all_kind_push(occ: Seq<WireVal>, w: WireVal, k: WireKind)
    ensures
        all_kind(occ.push(w), k) == (all_kind(occ, k) && wire_kind(w) == k),
{
    let p = occ.push(w);
    if all_kind(p, k) {
        assert(wire_kind(p[occ.len() as int]) == k);
        assert forall|i: int| 0 <= i < occ.len() implies wire_kind(#[trigger] occ[i]) == k by {
            assert(p[i] == occ[i]);
        }
    }
    if all_kind(occ, k) && wire_kind(w) == k {
        assert forall|i: int| 0 <= i < p.len() implies wire_kind(#[trigger] p[i]) == k by {
            if i < occ.len() {
                assert(p[i] == occ[i]);
            }
        }
    }
}

proof fn lemma_occurrences_step(fs: Seq<(u32, WireVal)>, j: int, tag: u32)
    requires
        0 <= j < fs.len(),
    ensures
        occurrences(fs.take(j + 1), tag) == if fs[j].0 == tag {
            occurrences(fs.take(j), tag).push(fs[j].1)
        } else {
            occurrences(fs.take(j), tag)
        },
{
    assert(fs.take(j + 1).drop_last() =~= fs.take(j));
}

/// The last varint given for `tag`, or `None` where some value given for it
/// is not a varint.
fn scan_varint(fs: &Vec<WireField>, tag: u32) -> (r: Option<u64>)
    ensures
        r == (if all_kind(occurrences(fields_view(fs@), tag), WireKind::Varint) {
            Some(last_varint(occurrences(fields_view(fs@), tag)))
        } else {
            None::<u64>
        }),
{
    let ghost fv = fields_view(fs@);
    let mut ok = true;
    let mut last: u64 = 0;
    let mut j: usize = 0;
    while j < fs.len()
        invariant
            j <= fs.len(),
            fv == fields_view(fs@),
            ok == all_kind(occurrences(fv.take(j as int), tag), WireKind::Varint),
            last == last_varint(occurrences(fv.take(j as int), tag)),
        decreases fs.len() - j,
    {
        proof {
            lemma_occurrences_step(fv, j as int, tag);
        }
        let f = &fs[j];
        if f.tag == tag {
            match &f.value {
                WireValue::Varint(x) => {
                    last = *x;
                },
                _ => {
                    ok = false;
                    last = 0;
                },
            }
            proof {
                lemma_all_kind_push(occurrences(fv.take(j as int), tag), fv[j as int].1, WireKind::Varint);
            }
        }
        j = j + 1;
    }
    assert(fv.take(j as int) =~= fv);
    if ok {
        Some(last)
    } else {
        None
    }
}

/// The last four-byte value given for `tag`, or `None` where some value
/// given for it is of another wire type.
fn scan_fixed32(fs: &Vec<WireField>, tag: u32) -> (r: Option<u32>)
    ensures
        r == (if all_kind(occurrences(fields_view(fs@), tag), WireKind::Fixed32) {
            Some(last_fixed32(occurrences(fields_view(fs@), tag)))
        } else {
            None::<u32>
        }),
{
    let ghost fv = fields_view(fs@);
    let mut ok = true;
    let mut last: u32 = 0;
    let mut j: usize = 0;
    while j < fs.len()
        invariant
            j <= fs.len(),
            fv == fields_view(fs@),
            ok == all_kind(occurrences(fv.take(j as int), tag), WireKind::Fixed32),
            last == last_fixed32(occurrences(fv.take(j as int), tag)),
        decreases fs.len() - j,
    {
        proof {
            lemma_occurrences_step(fv, j as int, tag);
        }
        let f = &fs[j];
        if f.tag == tag {
            match &f.value {
                WireValue::Fixed32(x) => {
                    last = *x;
                },
                _ => {
                    ok = false;
                    last = 0;
                },
            }
            proof {
                lemma_all_kind_push(occurrences(fv.take(j as int), tag), fv[j as int].1, WireKind::Fixed32);
            }
        }
        j = j + 1;
    }
    assert(fv.take(j as int) =~= fv);
    if ok {
        Some(last)
    } else {
        None
    }
}

/// The payloads given for `tag`, in order, or `None` where some value given
/// for it is not length-delimited.
fn scan_bytes(fs: &Vec<WireField>, tag: u32) -> (r: Option<Vec<Vec<u8>>>)
    ensures
        r is Some <==> all_kind(occurrences(fields_view(fs@), tag), WireKind::LengthDelimited),
        r matches Some(v) ==> v@.len() == occurrences(fields_view(fs@), tag).len() && forall|i: int|
            0 <= i < v@.len() ==> occurrences(fields_view(fs@), tag)[i] == WireVal::Bytes(
                #[trigger] v@[i]@,
            ),
{
    let ghost fv = fields_view(fs@);
    let mut out: Vec<Vec<u8>> = Vec::new();
    let mut j: usize = 0;
    while j < fs.len()
        invariant
            j <= fs.len(),
            fv == fields_view(fs@),
            all_kind(occurrences(fv.take(j as int), tag), WireKind::LengthDelimited),
            out@.len() == occurrences(fv.take(j as int), tag).len(),
            forall|i: int|
                0 <= i < out@.len() ==> occurrences(fv.take(j as int), tag)[i] == WireVal::Bytes(
                    #[trigger] out@[i]@,
                ),
        decreases fs.len() - j,
    {
        proof {
            lemma_occurrences_step(fv, j as int, tag);
        }
        let f = &fs[j];
        if f.tag == tag {
            match &f.value {
                WireValue::Bytes(b) => {
                    out.push(b.clone());
                },
                _ => {
                    proof {
                        let occ = occurrences(fv.take(j as int + 1), tag);
                        assert(wire_kind(occ[occ.len() - 1]) != WireKind::LengthDelimited);
                        lemma_occurrences_prefix(fv, j as int + 1, tag);
                    }
                    return None;
                },
            }
        }
        j = j + 1;
    }
    assert(fv.take(j as int) =~= fv);
    Some(out)
}

/// The values given for a field number in a prefix of the fields stand at
/// the front of those given in all of them.
proof fn lemma_occurrences_prefix(fs: Seq<(u32, WireVal)>, j: int, tag: u32)
    requires
        0 <= j <= fs.len(),
    ensures
        occurrences(fs.take(j), tag).len() <= occurrences(fs, tag).len(),
        forall|i: int|
            0 <= i < occurrences(fs.take(j), tag).len() ==> #[trigger] occurrences(fs.take(j), tag)[i]
                == occurrences(fs, tag)[i],
    decreases fs.len() - j,
{
    if j < fs.len() {
        lemma_occurrences_prefix(fs, j + 1, tag);
        lemma_occurrences_step(fs, j, tag);
        let a = occurrences(fs.take(j), tag);
        let b = occurrences(fs.take(j + 1), tag);
        assert forall|i: int| 0 <= i < a.len() implies #[trigger] a[i] == occurrences(fs, tag)[i] by {
            assert(a[i] == b[i]);
        }
    } else {
        assert(fs.take(j) =~= fs);
    }
}


pub proof fn lemma_decode_utf8_empty()
    ensures
        decode_utf8(Seq::<u8>::empty()) == Seq::<char>::empty(),
{
    assert(decode_utf8(Seq::<u8>::empty()) =~= Seq::<char>::empty());
}

proof fn lemma_decode_each_prefix(t: MsgType, occ: Seq<WireVal>, i: int, limit: nat)
    requires
        0 <= i <= occ.len(),
        decode_each(t, occ.take(i), limit) is None,
    ensures
        decode_each(t, occ, limit) is None,
    decreases occ.len() - i,
{
    if i < occ.len() {
        assert(occ.take(i + 1).drop_last() =~= occ.take(i));
        lemma_decode_each_prefix(t, occ, i + 1, limit);
    } else {
        assert(occ.take(i) =~= occ);
    }
}

/// The last string given for `tag`; `None` where some value given for it is
/// not length-delimited UTF-8.
fn str_field(fs: &Vec<WireField>, tag: u32) -> (r: Option<String>)
    ensures
        r is Some <==> all_kind(occurrences(fields_view(fs@), tag), WireKind::LengthDelimited)
            && all_utf8(occurrences(fields_view(fs@), tag)),
        r matches Some(st) ==> st@ == decode_utf8(last_bytes(occurrences(fields_view(fs@), tag))),
{
    let ghost occ = occurrences(fields_view(fs@), tag);
    match scan_bytes(fs, tag) {
        None => None,
        Some(list) => {
            let mut last = String::new();
            proof {
                lemma_decode_utf8_empty();
            }
            let mut i: usize = 0;
            while i < list.len()
                invariant
                    occ == occurrences(fields_view(fs@), tag),
                    i <= list@.len(),
                    list@.len() == occ.len(),
                    forall|j: int| 0 <= j < list@.len() ==> occ[j] == WireVal::Bytes(#[trigger] list@[j]@),
                    forall|j: int| 0 <= j < i ==> valid_utf8(bytes_of(#[trigger] occ[j])),
                    last@ == (if i == 0 {
                        Seq::<char>::empty()
                    } else {
                        decode_utf8(list@[i - 1]@)
                    }),
                decreases list@.len() - i,
            {
                assert(occ[i as int] == WireVal::Bytes(list@[i as int]@));
                match string_from_utf8(list[i].clone()) {
                    None => {
                        assert(!valid_utf8(bytes_of(occ[i as int])));
                        return None;
                    },
                    Some(st) => {
                        last = st;
                    },
                }
                i = i + 1;
            }
            proof {
                if occ.len() > 0 {
                    assert(occ.last() == WireVal::Bytes(list@[list@.len() - 1]@));
                }
            }
            Some(last)
        },
    }
}

/// Every string given for `tag`, in order; `None` where some value given
/// for it is not length-delimited UTF-8.
fn strs_field(fs: &Vec<WireField>, tag: u32) -> (r: Option<Vec<String>>)
    ensures
        r is Some <==> all_kind(occurrences(fields_view(fs@), tag), WireKind::LengthDelimited)
            && all_utf8(occurrences(fields_view(fs@), tag)),
        r matches Some(v) ==> v@.map_values(|st: String| st@) == strings_of(
            occurrences(fields_view(fs@), tag),
        ),
{
    let ghost occ = occurrences(fields_view(fs@), tag);
    match scan_bytes(fs, tag) {
        None => None,
        Some(list) => {
            let mut out: Vec<String> = Vec::new();
            let mut i: usize = 0;
            while i < list.len()
                invariant
                    occ == occurrences(fields_view(fs@), tag),
                    i <= list@.len(),
                    list@.len() == occ.len(),
                    forall|j: int| 0 <= j < list@.len() ==> occ[j] == WireVal::Bytes(#[trigger] list@[j]@),
                    forall|j: int| 0 <= j < i ==> valid_utf8(bytes_of(#[trigger] occ[j])),
                    out@.len() == i,
                    forall|j: int| 0 <= j < i ==> (#[trigger] out@[j])@ == decode_utf8(bytes_of(occ[j])),
                decreases list@.len() - i,
            {
                assert(occ[i as int] == WireVal::Bytes(list@[i as int]@));
                match string_from_utf8(list[i].clone()) {
                    None => {
                        assert(!valid_utf8(bytes_of(occ[i as int])));
                        return None;
                    },
                    Some(st) => {
                        out.push(st);
                    },
                }
                i = i + 1;
            }
            assert(out@.map_values(|st: String| st@) =~= strings_of(occ));
            Some(out)
        },
    }
}

/// The fields of every occurrence of the embedded message `tag`, one after
/// another, and the number of occurrences; `None` where some occurrence is
/// not a well-formed body.
fn flat_field(fs: &Vec<WireField>, tag: u32) -> (r: Option<(Vec<WireField>, usize)>)
    ensures
        r is Some <==> all_kind(occurrences(fields_view(fs@), tag), WireKind::LengthDelimited)
            && all_parse(occurrences(fields_view(fs@), tag)),
        r matches Some((flat, n)) ==> fields_view(flat@) == flatten(occurrences(fields_view(fs@), tag))
            && n == occurrences(fields_view(fs@), tag).len(),
{
    let ghost occ = occurrences(fields_view(fs@), tag);
    match scan_bytes(fs, tag) {
        None => None,
        Some(list) => {
            let mut flat: Vec<WireField> = Vec::new();
            let mut i: usize = 0;
            assert(occ.take(0) =~= Seq::<WireVal>::empty());
            assert(fields_view(flat@) =~= flatten(occ.take(0)));
            while i < list.len()
                invariant
                    occ == occurrences(fields_view(fs@), tag),
                    i <= list@.len(),
                    list@.len() == occ.len(),
                    forall|j: int| 0 <= j < list@.len() ==> occ[j] == WireVal::Bytes(#[trigger] list@[j]@),
                    forall|j: int| 0 <= j < i ==> (#[trigger] parse_fields_spec(bytes_of(occ[j]))) is Some,
                    fields_view(flat@) == flatten(occ.take(i as int)),
                decreases list@.len() - i,
            {
                assert(occ[i as int] == WireVal::Bytes(list@[i as int]@));
                match parse_fields(list[i].as_slice()) {
                    None => {
                        assert(parse_fields_spec(bytes_of(occ[i as int])) is None);
                        return None;
                    },
                    Some(parsed) => {
                        let mut parsed = parsed;
                        let ghost before = flat@;
                        let ghost pv = parsed@;
                        flat.append(&mut parsed);
                        assert(occ.take(i as int + 1).drop_last() =~= occ.take(i as int));
                        assert(fields_view(flat@) =~= fields_view(before) + fields_view(pv));
                    },
                }
                i = i + 1;
            }
            assert(occ.take(i as int) =~= occ);
            Some((flat, list.len()))
        },
    }
}

/// Every occurrence of the repeated embedded message `tag`, each decoded on
/// its own.
fn msgs_field(t: MsgType, fs: &Vec<WireField>, tag: u32, limit: u32) -> (r: Option<
    Vec<Vec<ProtoValue>>,
>)
    requires
        limit > 0,
        all_kind(occurrences(fields_view(fs@), tag), WireKind::LengthDelimited),
        all_parse(occurrences(fields_view(fs@), tag)),
    ensures
        match decode_each(t, occurrences(fields_view(fs@), tag), (limit - 1) as nat) {
            None => r is None,
            Some(v) => r matches Some(x) && messages_view(x@) == v,
        },
    decreases limit, 0nat,
{
    let ghost occ = occurrences(fields_view(fs@), tag);
    let list = match scan_bytes(fs, tag) {
        Some(l) => l,
        None => {
            return None;
        },
    };
    let mut out: Vec<Vec<ProtoValue>> = Vec::new();
    let mut i: usize = 0;
    assert(occ.take(0) =~= Seq::<WireVal>::empty());
    assert(messages_view(out@) =~= Seq::<Seq<Val>>::empty());
    while i < list.len()
        invariant
            occ == occurrences(fields_view(fs@), tag),
            limit > 0,
            i <= list@.len(),
            list@.len() == occ.len(),
            all_parse(occ),
            forall|j: int| 0 <= j < list@.len() ==> occ[j] == WireVal::Bytes(#[trigger] list@[j]@),
            decode_each(t, occ.take(i as int), (limit - 1) as nat) == Some(messages_view(out@)),
        decreases list@.len() - i,
    {
        assert(occ[i as int] == WireVal::Bytes(list@[i as int]@));
        assert(occ.take(i as int + 1).drop_last() =~= occ.take(i as int));
        assert(occ.take(i as int + 1).last() == occ[i as int]);
        assert(parse_fields_spec(bytes_of(occ[i as int])) is Some);
        match parse_fields(list[i].as_slice()) {
            None => {
                return None;
            },
            Some(parsed) => {
                match decode_fields_exec(t, &parsed, limit - 1) {
                    None => {
                        proof {
                            lemma_decode_each_prefix(t, occ, i as int + 1, (limit - 1) as nat);
                        }
                        return None;
                    },
                    Some(v) => {
                        let ghost before = out@;
                        out.push(v);
                        assert(out@.drop_last() =~= before);
                    },
                }
            },
        }
        i = i + 1;
    }
    assert(occ.take(i as int) =~= occ);
    Some(out)
}

/// The value of the field `tag` of type `k` among the fields `fs`.
fn field_value_exec(k: FieldKind, tag: u32, fs: &Vec<WireField>, limit: u32) -> (r: Option<
    ProtoValue,
>)
    ensures
        match field_value(k, occurrences(fields_view(fs@), tag), limit as nat) {
            None => r is None,
            Some(v) => r matches Some(x) && x@ == v,
        },
    decreases limit, 1nat,
{
    let ghost occ = occurrences(fields_view(fs@), tag);
    match k {
        FieldKind::U32 => match scan_varint(fs, tag) {
            None => None,
            Some(x) => Some(ProtoValue::U32(#[verifier::truncate] (x as u32))),
        },
        FieldKind::I32 => match scan_varint(fs, tag) {
            None => None,
            Some(x) => Some(ProtoValue::I32(#[verifier::truncate] (x as i32))),
        },
        FieldKind::U64 => match scan_varint(fs, tag) {
            None => None,
            Some(x) => Some(ProtoValue::U64(x)),
        },
        FieldKind::Bool => match scan_varint(fs, tag) {
            None => None,
            Some(x) => Some(ProtoValue::Bool(x != 0)),
        },
        FieldKind::F32 => match scan_fixed32(fs, tag) {
            None => None,
            Some(x) => Some(ProtoValue::F32(x)),
        },
        FieldKind::Bytes => match scan_bytes(fs, tag) {
            None => None,
            Some(list) => {
                let mut list = list;
                let ghost l0 = list@;
                match list.pop() {
                    Some(b) => {
                        assert(occ.last() == WireVal::Bytes(l0[l0.len() - 1]@));
                        Some(ProtoValue::Bytes(b))
                    },
                    None => {
                        let e: Vec<u8> = Vec::new();
                        assert(e@ =~= last_bytes(occ));
                        Some(ProtoValue::Bytes(e))
                    },
                }
            },
        },
        FieldKind::Str => match str_field(fs, tag) {
            None => None,
            Some(st) => Some(ProtoValue::Str(st)),
        },
        FieldKind::Strs => match strs_field(fs, tag) {
            None => None,
            Some(v) => Some(ProtoValue::Strs(v)),
        },
        FieldKind::Msg(t) => match flat_field(fs, tag) {
            None => None,
            Some((flat, n)) => {
                if n == 0 {
                    Some(ProtoValue::Msg(None))
                } else if limit == 0 {
                    None
                } else {
                    match decode_fields_exec(t, &flat, limit - 1) {
                        None => None,
                        Some(v) => Some(ProtoValue::Msg(Some(v))),
                    }
                }
            },
        },
        FieldKind::Msgs(t) => {
            if !all_parse_exec(fs, tag) {
                return None;
            }
            match scan_bytes(fs, tag) {
                None => None,
                Some(list) => {
                    if list.len() == 0 {
                        let e: Vec<Vec<ProtoValue>> = Vec::new();
                        assert(messages_view(e@) =~= Seq::<Seq<Val>>::empty());
                        Some(ProtoValue::Msgs(e))
                    } else if limit == 0 {
                        None
                    } else {
                        match msgs_field(t, fs, tag, limit) {
                            None => None,
                            Some(v) => Some(ProtoValue::Msgs(v)),
                        }
                    }
                },
            }
        },
    }
}

/// Whether every value given for `tag` is a well-formed message body.
fn all_parse_exec(fs: &Vec<WireField>, tag: u32) -> (b: bool)
    ensures
        b == (all_kind(occurrences(fields_view(fs@), tag), WireKind::LengthDelimited)
            && all_parse(occurrences(fields_view(fs@), tag))),
{
    match flat_field(fs, tag) {
        None => false,
        Some(_) => true,
    }
}

/// The values of the fields of a message of type `t` among `fs`, in table
/// order.
fn decode_fields_exec(t: MsgType, fs: &Vec<WireField>, limit: u32) -> (r: Option<Vec<ProtoValue>>)
    ensures
        match decode_from(t, fields_view(fs@), 0, limit as nat) {
            None => r is None,
            Some(v) => r matches Some(x) && values_view(x@) == v,
        },
    decreases limit, 2nat,
{
    let ghost fv = fields_view(fs@);
    let specs = fields_of(t);
    let mut out: Vec<ProtoValue> = Vec::new();
    let mut i: usize = 0;
    assert(values_view(out@) =~= Seq::<Val>::empty());
    while i < specs.len()
        invariant
            i <= specs@.len(),
            specs@ == schema(t),
            fv == fields_view(fs@),
            decode_from(t, fv, 0, limit as nat) == match decode_from(t, fv, i as nat, limit as nat) {
                None => None::<Seq<Val>>,
                Some(rest) => Some(values_view(out@) + rest),
            },
        decreases specs@.len() - i,
    {
        let (tag, kind) = specs[i];
        match field_value_exec(kind, tag, fs, limit) {
            None => {
                return None;
            },
            Some(v) => {
                let ghost before = out@;
                out.push(v);
                assert(out@.drop_last() =~= before);
                proof {
                    if let Some(rest) = decode_from(t, fv, i as nat + 1, limit as nat) {
                        assert(values_view(out@) + rest =~= values_view(before) + (seq![value_view(v)] + rest));
                    }
                }
            },
        }
        i = i + 1;
    }
    assert(values_view(out@) + Seq::<Val>::empty() =~= values_view(out@));
    Some(out)
}

/// Decodes a message body of type `t`: the values of its fields in table
/// order, or `None` where `prost` would refuse the body.
pub fn decode_message(t: MsgType, bytes: &[u8]) -> (r: Option<Vec<ProtoValue>>)
    ensures
        match decode_spec(t, bytes@) {
            None => r is None,
            Some(v) => r matches Some(x) && values_view(x@) == v,
        },
{
    match parse_fields(bytes) {
        None => None,
        Some(fs) => decode_fields_exec(t, &fs, RECURSION_LIMIT),
    }
}


/// The wire fields that stand for value `v` of the field `tag` of type `k`:
/// none for a scalar at its default, as `prost` writes them.
pub open spec fn field_wire(k: FieldKind, tag: u32, v: Val) -> Seq<(u32, WireVal)>
    decreases v, 0nat,
{
    match (k, v) {
        (FieldKind::U32, Val::U32(x)) => if x == 0 {
            Seq::empty()
        } else {
            seq![(tag, WireVal::Varint(x as u64))]
        },
        (FieldKind::I32, Val::I32(x)) => if x == 0 {
            Seq::empty()
        } else {
            seq![(tag, WireVal::Varint(x as u64))]
        },
        (FieldKind::U64, Val::U64(x)) => if x == 0 {
            Seq::empty()
        } else {
            seq![(tag, WireVal::Varint(x))]
        },
        (FieldKind::Bool, Val::Bool(b)) => if b {
            seq![(tag, WireVal::Varint(1))]
        } else {
            Seq::empty()
        },
        (FieldKind::F32, Val::F32(bits)) => if bits == 0 || bits == 0x8000_0000 {
            Seq::empty()
        } else {
            seq![(tag, WireVal::Fixed32(bits))]
        },
        (FieldKind::Str, Val::Str(st)) => if st.len() == 0 {
            Seq::empty()
        } else {
            seq![(tag, WireVal::Bytes(encode_utf8(st)))]
        },
        (FieldKind::Bytes, Val::Bytes(b)) => if b.len() == 0 {
            Seq::empty()
        } else {
            seq![(tag, WireVal::Bytes(b))]
        },
        (FieldKind::Strs, Val::Strs(ss)) => ss.map_values(
            |st: Seq<char>| (tag, WireVal::Bytes(encode_utf8(st))),
        ),
        (FieldKind::Msg(t), Val::Msg(None)) => Seq::empty(),
        (FieldKind::Msg(t), Val::Msg(Some(inner))) => seq![
            (tag, WireVal::Bytes(fields_bytes(wire_from(t, inner, 0)))),
        ],
        (FieldKind::Msgs(t), Val::Msgs(ms)) => each_wire(t, tag, ms, ms.len()),
        _ => Seq::empty(),
    }
}

/// The wire fields of the first `n` messages of a repeated field.
pub open spec fn each_wire(t: MsgType, tag: u32, ms: Seq<Seq<Val>>, n: nat) -> Seq<(u32, WireVal)>
    decreases ms, n,
{
    if n == 0 || n > ms.len() {
        Seq::empty()
    } else {
        each_wire(t, tag, ms, (n - 1) as nat) + seq![
            (tag, WireVal::Bytes(fields_bytes(wire_from(t, ms[n - 1], 0)))),
        ]
    }
}

/// The wire fields of the values of `t` from field `i` on.
pub open spec fn wire_from(t: MsgType, vs: Seq<Val>, i: nat) -> Seq<(u32, WireVal)>
    decreases vs, schema(t).len() - i,
{
    if i >= schema(t).len() || i >= vs.len() {
        Seq::empty()
    } else {
        field_wire(schema(t)[i as int].1, schema(t)[i as int].0, vs[i as int]) + wire_from(
            t,
            vs,
            i + 1,
        )
    }
}

/// The body that encodes the values `vs` of a message of type `t`.
pub open spec fn encode_spec(t: MsgType, vs: Seq<Val>) -> Seq<u8> {
    fields_bytes(wire_from(t, vs, 0))
}


proof fn lemma_fields_bytes_empty()
    ensures
        fields_bytes(Seq::<(u32, WireVal)>::empty()) == Seq::<u8>::empty(),
{
}

/// Appends the wire fields that stand for value `v` of the field `tag` of
/// type `k`.
fn encode_field(k: FieldKind, tag: u32, v: &ProtoValue, buf: &mut Vec<u8>)
    requires
        1 <= tag <= MAX_FIELD_NUMBER,
    ensures
        final(buf)@ == old(buf)@ + fields_bytes(field_wire(k, tag, value_view(*v))),
    decreases *v, 0nat,
{
    proof {
        lemma_fields_bytes_empty();
    }
    match (k, v) {
        (FieldKind::U32, ProtoValue::U32(x)) => {
            if *x != 0 {
                proof {
                    lemma_fields_bytes_single((tag, WireVal::Varint(*x as u64)));
                }
                put_varint_field(tag, *x as u64, buf);
            } else {
                assert(final(buf)@ =~= old(buf)@ + Seq::<u8>::empty());
            }
        },
        (FieldKind::I32, ProtoValue::I32(x)) => {
            if *x != 0 {
                let wide = #[verifier::truncate] (*x as u64);
                proof {
                    lemma_fields_bytes_single((tag, WireVal::Varint(wide)));
                }
                put_varint_field(tag, wide, buf);
            } else {
                assert(final(buf)@ =~= old(buf)@ + Seq::<u8>::empty());
            }
        },
        (FieldKind::U64, ProtoValue::U64(x)) => {
            if *x != 0 {
                proof {
                    lemma_fields_bytes_single((tag, WireVal::Varint(*x)));
                }
                put_varint_field(tag, *x, buf);
            } else {
                assert(final(buf)@ =~= old(buf)@ + Seq::<u8>::empty());
            }
        },
        (FieldKind::Bool, ProtoValue::Bool(b)) => {
            if *b {
                proof {
                    lemma_fields_bytes_single((tag, WireVal::Varint(1)));
                }
                put_varint_field(tag, 1, buf);
            } else {
                assert(final(buf)@ =~= old(buf)@ + Seq::<u8>::empty());
            }
        },
        (FieldKind::F32, ProtoValue::F32(bits)) => {
            if *bits != 0 && *bits != 0x8000_0000 {
                proof {
                    lemma_fields_bytes_single((tag, WireVal::Fixed32(*bits)));
                }
                put_fixed32_field(tag, *bits, buf);
            } else {
                assert(final(buf)@ =~= old(buf)@ + Seq::<u8>::empty());
            }
        },
        (FieldKind::Str, ProtoValue::Str(st)) => {
            let bytes = st.as_str().as_bytes_vec();
            proof {
                vstd::utf8::encode_utf8_valid_utf8(st@);
            }
            if bytes.len() != 0 {
                proof {
                    lemma_fields_bytes_single((tag, WireVal::Bytes(encode_utf8(st@))));
                }
                put_bytes_field(tag, bytes.as_slice(), buf);
            } else {
                proof {
                    if st@.len() != 0 {
                        assert(encode_utf8(st@).len() > 0) by {
                            reveal_with_fuel(encode_utf8, 2);
                            vstd::utf8::encode_utf8_first_scalar(st@);
                        }
                    }
                }
                assert(final(buf)@ =~= old(buf)@ + Seq::<u8>::empty());
            }
        },
        (FieldKind::Bytes, ProtoValue::Bytes(b)) => {
            if b.len() != 0 {
                proof {
                    lemma_fields_bytes_single((tag, WireVal::Bytes(b@)));
                }
                put_bytes_field(tag, b.as_slice(), buf);
            } else {
                assert(final(buf)@ =~= old(buf)@ + Seq::<u8>::empty());
            }
        },
        (FieldKind::Strs, ProtoValue::Strs(ss)) => {
            let ghost wires = field_wire(k, tag, value_view(*v));
            let mut i: usize = 0;
            while i < ss.len()
                invariant
                    i <= ss@.len(),
                    1 <= tag <= MAX_FIELD_NUMBER,
                    wires == ss@.map_values(|st: String| st@).map_values(
                        |st: Seq<char>| (tag, WireVal::Bytes(encode_utf8(st))),
                    ),
                    buf@ == old(buf)@ + fields_bytes(wires.take(i as int)),
                decreases ss@.len() - i,
            {
                let bytes = ss[i].as_str().as_bytes_vec();
                let ghost before = buf@;
                put_bytes_field(tag, bytes.as_slice(), buf);
                proof {
                    assert(wires[i as int] == (tag, WireVal::Bytes(encode_utf8(ss@[i as int]@))));
                    assert(wires.take(i as int + 1) =~= wires.take(i as int) + seq![wires[i as int]]);
                    lemma_fields_bytes_concat(wires.take(i as int), seq![wires[i as int]]);
                    lemma_fields_bytes_single(wires[i as int]);
                }
                assert(buf@ =~= old(buf)@ + fields_bytes(wires.take(i as int + 1)));
                i = i + 1;
            }
            assert(wires.take(i as int) =~= wires);
        },
        (FieldKind::Msg(t), ProtoValue::Msg(inner)) => {
            match inner {
                None => {
                    assert(final(buf)@ =~= old(buf)@ + Seq::<u8>::empty());
                },
                Some(vs) => {
                    let mut body: Vec<u8> = Vec::new();
                    encode_message(t, vs, &mut body);
                    assert(body@ =~= Seq::<u8>::empty() + fields_bytes(wire_from(t, values_view(vs@), 0)));
                    proof {
                        lemma_fields_bytes_single((tag, WireVal::Bytes(body@)));
                    }
                    put_bytes_field(tag, body.as_slice(), buf);
                },
            }
        },
        (FieldKind::Msgs(t), ProtoValue::Msgs(ms)) => {
            let ghost mv = messages_view(ms@);
            proof {
                lemma_messages_view(ms@);
            }
            let mut i: usize = 0;
            assert(buf@ =~= old(buf)@ + fields_bytes(each_wire(t, tag, mv, 0)));
            while i < ms.len()
                invariant
                    i <= ms@.len(),
                    1 <= tag <= MAX_FIELD_NUMBER,
                    mv == messages_view(ms@),
                    *v == ProtoValue::Msgs(*ms),
                    mv.len() == ms@.len(),
                    forall|j: int| 0 <= j < ms@.len() ==> #[trigger] mv[j] == values_view(ms@[j]@),
                    buf@ == old(buf)@ + fields_bytes(each_wire(t, tag, mv, i as nat)),
                decreases ms@.len() - i,
            {
                let mut body: Vec<u8> = Vec::new();
                proof {
                    assert(decreases_to!(*v => (*v)->Msgs_0));
                    assert(decreases_to!((*v)->Msgs_0 => ms@));
                    assert(decreases_to!(ms@ => ms@[i as int]));
                }
                encode_message(t, &ms[i], &mut body);
                assert(body@ =~= fields_bytes(wire_from(t, mv[i as int], 0)));
                let ghost before = buf@;
                put_bytes_field(tag, body.as_slice(), buf);
                proof {
                    let f = (tag, WireVal::Bytes(body@));
                    lemma_fields_bytes_concat(each_wire(t, tag, mv, i as nat), seq![f]);
                    lemma_fields_bytes_single(f);
                }
                assert(buf@ =~= old(buf)@ + fields_bytes(each_wire(t, tag, mv, i as nat + 1)));
                i = i + 1;
            }
        },
        _ => {
            assert(final(buf)@ =~= old(buf)@ + Seq::<u8>::empty());
        },
    }
}

/// Appends the encoding of the values `vals` of a message of type `t`:
/// each field in table order, scalars at their default left out.
pub fn encode_message(t: MsgType, vals: &Vec<ProtoValue>, buf: &mut Vec<u8>)
    ensures
        final(buf)@ == old(buf)@ + encode_spec(t, values_view(vals@)),
    decreases vals,
{
    let specs = fields_of(t);
    let ghost vv = values_view(vals@);
    proof {
        lemma_values_view(vals@);
        lemma_schema_ok(t);
    }
    let mut i: usize = 0;
    assert(buf@ =~= old(buf)@ + Seq::<u8>::empty());
    while i < specs.len() && i < vals.len()
        invariant
            i <= specs@.len(),
            specs@ == schema(t),
            schema_ok(schema(t)),
            vv == values_view(vals@),
            vv.len() == vals@.len(),
            forall|j: int| 0 <= j < vals@.len() ==> #[trigger] vv[j] == value_view(vals@[j]),
            i <= vals@.len(),
            old(buf)@ + encode_spec(t, vv) == buf@ + fields_bytes(wire_from(t, vv, i as nat)),
        decreases specs@.len() - i,
    {
        let (tag, kind) = specs[i];
        assert(1 <= specs@[i as int].0 <= MAX_FIELD_NUMBER);
        let ghost before = buf@;
        encode_field(kind, tag, &vals[i], buf);
        proof {
            lemma_fields_bytes_concat(
                field_wire(kind, tag, vv[i as int]),
                wire_from(t, vv, i as nat + 1),
            );
        }
        assert(before + fields_bytes(wire_from(t, vv, i as nat)) =~= buf@ + fields_bytes(wire_from(t, vv, i as nat + 1)));
        i = i + 1;
    }
    assert(wire_from(t, vv, i as nat) =~= Seq::<(u32, WireVal)>::empty());
    assert(buf@ + Seq::<u8>::empty() =~= buf@);
}


/// How deeply messages of type `t` nest: 1 for a message without embedded
/// messages.
pub open spec fn type_depth(t: MsgType) -> nat {
    match t {
        MsgType::SetupContext => 3,
        MsgType::MessageNotify => 2,
        MsgType::SendDebugMessageResp => 2,
        MsgType::DevLoginResp => 2,
        MsgType::DevJoinRoomResp => 2,
        MsgType::DevHeartBeatResp => 2,
        MsgType::DevQuitRoomResp => 2,
        MsgType::NewSendDebugMessageResp => 2,
        MsgType::DevSyncMessageResp => 2,
        MsgType::EventNotify => 2,
        MsgType::RegisterInterface => 2,
        _ => 1,
    }
}

pub open spec fn kind_depth(k: FieldKind) -> nat {
    match k {
        FieldKind::Msg(t) => type_depth(t),
        FieldKind::Msgs(t) => type_depth(t),
        _ => 0,
    }
}

/// Every embedded message nests less deeply than the message holding it.
pub proof fn lemma_schema_depth(t: MsgType)
    ensures
        forall|i: int| 0 <= i < schema(t).len() ==> kind_depth(#[trigger] schema(t)[i].1) < type_depth(t),
        type_depth(t) <= 3,
{
}


/// A value fits a field of type `k` when it is of that type, a float is not
/// negative zero (which `prost` leaves out as a default), and every length
/// can be written as a varint.
pub open spec fn value_fits(k: FieldKind, v: Val) -> bool
    decreases v, 0nat,
{
    match (k, v) {
        (FieldKind::U32, Val::U32(_)) => true,
        (FieldKind::I32, Val::I32(_)) => true,
        (FieldKind::U64, Val::U64(_)) => true,
        (FieldKind::Bool, Val::Bool(_)) => true,
        (FieldKind::F32, Val::F32(bits)) => bits != 0x8000_0000,
        (FieldKind::Str, Val::Str(st)) => encode_utf8(st).len() <= u64::MAX,
        (FieldKind::Bytes, Val::Bytes(b)) => b.len() <= u64::MAX,
        (FieldKind::Strs, Val::Strs(ss)) => forall|j: int|
            0 <= j < ss.len() ==> encode_utf8(#[trigger] ss[j]).len() <= u64::MAX,
        (FieldKind::Msg(t), Val::Msg(None)) => true,
        (FieldKind::Msg(t), Val::Msg(Some(inner))) => inner.len() == schema(t).len() && fits_from(
            t,
            inner,
            0,
        ) && encode_spec(t, inner).len() <= u64::MAX,
        (FieldKind::Msgs(t), Val::Msgs(ms)) => each_fits(t, ms, ms.len()),
        _ => false,
    }
}

pub open spec fn each_fits(t: MsgType, ms: Seq<Seq<Val>>, n: nat) -> bool
    decreases ms, n,
{
    if n == 0 {
        true
    } else if n > ms.len() {
        false
    } else {
        &&& each_fits(t, ms, (n - 1) as nat)
        &&& ms[n - 1].len() == schema(t).len()
        &&& fits_from(t, ms[n - 1], 0)
        &&& encode_spec(t, ms[n - 1]).len() <= u64::MAX
    }
}

pub open spec fn fits_from(t: MsgType, vs: Seq<Val>, i: nat) -> bool
    decreases vs, schema(t).len() - i,
{
    if i >= schema(t).len() || i >= vs.len() {
        true
    } else {
        value_fits(schema(t)[i as int].1, vs[i as int]) && fits_from(t, vs, i + 1)
    }
}

/// The values `vs` fit the table of message `t`.
pub open spec fn message_fits(t: MsgType, vs: Seq<Val>) -> bool {
    vs.len() == schema(t).len() && fits_from(t, vs, 0)
}

pub open spec fn wvals(s: Seq<(u32, WireVal)>) -> Seq<WireVal> {
    s.map_values(|e: (u32, WireVal)| e.1)
}

proof fn lemma_occurrences_concat(a: Seq<(u32, WireVal)>, b: Seq<(u32, WireVal)>, tag: u32)
    ensures
        occurrences(a + b, tag) == occurrences(a, tag) + occurrences(b, tag),
    decreases b.len(),
{
    if b.len() == 0 {
        assert(a + b =~= a);
        assert(occurrences(a, tag) + occurrences(b, tag) =~= occurrences(a, tag));
    } else {
        assert((a + b).drop_last() =~= a + b.drop_last());
        lemma_occurrences_concat(a, b.drop_last(), tag);
        if b.last().0 == tag {
            assert(occurrences(a, tag) + occurrences(b, tag) =~= (occurrences(a, tag) + occurrences(
                b.drop_last(),
                tag,
            )).push(b.last().1));
        }
    }
}

proof fn lemma_occurrences_same(a: Seq<(u32, WireVal)>, tag: u32)
    requires
        forall|i: int| 0 <= i < a.len() ==> (#[trigger] a[i]).0 == tag,
    ensures
        occurrences(a, tag) == wvals(a),
    decreases a.len(),
{
    if a.len() > 0 {
        lemma_occurrences_same(a.drop_last(), tag);
        assert(wvals(a) =~= wvals(a.drop_last()).push(a.last().1));
    } else {
        assert(wvals(a) =~= Seq::<WireVal>::empty());
    }
}

proof fn lemma_occurrences_other(a: Seq<(u32, WireVal)>, tag: u32)
    requires
        forall|i: int| 0 <= i < a.len() ==> (#[trigger] a[i]).0 != tag,
    ensures
        occurrences(a, tag) == Seq::<WireVal>::empty(),
    decreases a.len(),
{
    if a.len() > 0 {
        lemma_occurrences_other(a.drop_last(), tag);
    }
}

proof fn lemma_each_wire_shape(t: MsgType, tag: u32, ms: Seq<Seq<Val>>, n: nat)
    requires
        n <= ms.len(),
    ensures
        each_wire(t, tag, ms, n).len() == n,
        forall|j: int|
            0 <= j < n ==> #[trigger] each_wire(t, tag, ms, n)[j] == (
                tag,
                WireVal::Bytes(encode_spec(t, ms[j])),
            ),
    decreases n,
{
    if n > 0 {
        lemma_each_wire_shape(t, tag, ms, (n - 1) as nat);
        let prev = each_wire(t, tag, ms, (n - 1) as nat);
        assert forall|j: int| 0 <= j < n implies #[trigger] each_wire(t, tag, ms, n)[j] == (
            tag,
            WireVal::Bytes(encode_spec(t, ms[j])),
        ) by {
            if j < n - 1 {
                assert(each_wire(t, tag, ms, n)[j] == prev[j]);
            }
        }
    }
}

/// Every wire field that stands for a field value carries its field number.
proof fn lemma_field_wire_tags(k: FieldKind, tag: u32, v: Val)
    ensures
        forall|i: int|
            0 <= i < field_wire(k, tag, v).len() ==> (#[trigger] field_wire(k, tag, v)[i]).0 == tag,
{
    match (k, v) {
        (FieldKind::Msgs(t), Val::Msgs(ms)) => {
            lemma_each_wire_shape(t, tag, ms, ms.len());
        },
        _ => {},
    }
}

/// Every wire field that stands for a fitting value is well formed.
proof fn lemma_field_wire_ok(k: FieldKind, tag: u32, v: Val)
    requires
        value_fits(k, v),
        1 <= tag <= MAX_FIELD_NUMBER,
    ensures
        forall|i: int|
            0 <= i < field_wire(k, tag, v).len() ==> field_ok(#[trigger] field_wire(k, tag, v)[i]),
{
    match (k, v) {
        (FieldKind::Msgs(t), Val::Msgs(ms)) => {
            lemma_each_wire_shape(t, tag, ms, ms.len());
            assert forall|i: int| 0 <= i < field_wire(k, tag, v).len() implies field_ok(
                #[trigger] field_wire(k, tag, v)[i],
            ) by {
                lemma_each_fits_at(t, ms, ms.len(), i);
            }
        },
        _ => {},
    }
}

proof fn lemma_each_fits_at(t: MsgType, ms: Seq<Seq<Val>>, n: nat, j: int)
    requires
        each_fits(t, ms, n),
        0 <= j < n,
    ensures
        ms[j].len() == schema(t).len(),
        fits_from(t, ms[j], 0),
        encode_spec(t, ms[j]).len() <= u64::MAX,
    decreases n,
{
    if j < n - 1 {
        lemma_each_fits_at(t, ms, (n - 1) as nat, j);
    }
}

/// The wire fields of the values of `t` from field `i` on are well formed.
proof fn lemma_wire_from_ok(t: MsgType, vs: Seq<Val>, i: nat)
    requires
        fits_from(t, vs, i),
    ensures
        forall|j: int|
            0 <= j < wire_from(t, vs, i).len() ==> field_ok(#[trigger] wire_from(t, vs, i)[j]),
    decreases schema(t).len() - i,
{
    lemma_schema_ok(t);
    if i < schema(t).len() && i < vs.len() {
        let k = schema(t)[i as int].1;
        let tag = schema(t)[i as int].0;
        lemma_field_wire_ok(k, tag, vs[i as int]);
        lemma_wire_from_ok(t, vs, i + 1);
        let a = field_wire(k, tag, vs[i as int]);
        let b = wire_from(t, vs, i + 1);
        assert forall|j: int| 0 <= j < (a + b).len() implies field_ok(#[trigger] (a + b)[j]) by {
            if j < a.len() {
                assert((a + b)[j] == a[j]);
            } else {
                assert((a + b)[j] == b[j - a.len()]);
            }
        }
    }
}

/// Among the wire fields of the values of `t` from field `j` on, those with
/// the number of field `i` are the ones that stand for value `i`.
proof fn lemma_wire_from_occurrences(t: MsgType, vs: Seq<Val>, i: int, j: nat)
    requires
        0 <= i < schema(t).len(),
        vs.len() == schema(t).len(),
    ensures
        occurrences(wire_from(t, vs, j), schema(t)[i].0) == if j <= i {
            wvals(field_wire(schema(t)[i].1, schema(t)[i].0, vs[i]))
        } else {
            Seq::<WireVal>::empty()
        },
    decreases schema(t).len() - j,
{
    lemma_schema_ok(t);
    let tag = schema(t)[i].0;
    if j >= schema(t).len() {
        assert(wire_from(t, vs, j) =~= Seq::<(u32, WireVal)>::empty());
    } else {
        let a = field_wire(schema(t)[j as int].1, schema(t)[j as int].0, vs[j as int]);
        let b = wire_from(t, vs, j + 1);
        lemma_wire_from_occurrences(t, vs, i, j + 1);
        lemma_occurrences_concat(a, b, tag);
        lemma_field_wire_tags(schema(t)[j as int].1, schema(t)[j as int].0, vs[j as int]);
        if j == i {
            lemma_occurrences_same(a, tag);
            assert(occurrences(a, tag) + Seq::<WireVal>::empty() =~= occurrences(a, tag));
        } else {
            assert(schema(t)[j as int].0 != tag);
            lemma_occurrences_other(a, tag);
            assert(Seq::<WireVal>::empty() + occurrences(b, tag) =~= occurrences(b, tag));
        }
    }
}


pub proof fn lemma_decode_utf8_of_encode(st: Seq<char>)
    ensures
        valid_utf8(encode_utf8(st)),
        decode_utf8(encode_utf8(st)) == st,
        st.len() == 0 <==> encode_utf8(st).len() == 0,
{
    vstd::utf8::encode_utf8_valid_utf8(st);
    vstd::utf8::encode_utf8_decode_utf8(st);
    if st.len() == 0 {
        assert(encode_utf8(st) =~= Seq::<u8>::empty());
    } else {
        vstd::utf8::encode_utf8_first_scalar(st);
    }
}

/// A fitting field value comes back from the wire fields that stand for it.
proof fn lemma_field_roundtrip(k: FieldKind, tag: u32, v: Val, limit: nat)
    requires
        value_fits(k, v),
        1 <= tag <= MAX_FIELD_NUMBER,
        kind_depth(k) < limit,
    ensures
        field_value(k, wvals(field_wire(k, tag, v)), limit) == Some(v),
    decreases v, 0nat,
{
    let occ = wvals(field_wire(k, tag, v));
    match (k, v) {
        (FieldKind::U32, Val::U32(x)) => {
            if x == 0 {
                assert(occ =~= Seq::<WireVal>::empty());
            } else {
                assert(occ =~= seq![WireVal::Varint(x as u64)]);
            }
        },
        (FieldKind::I32, Val::I32(x)) => {
            if x == 0 {
                assert(occ =~= Seq::<WireVal>::empty());
            } else {
                assert(occ =~= seq![WireVal::Varint(#[verifier::truncate] (x as u64))]);
                assert(((x as u64) as i32) == x) by (bit_vector);
            }
        },
        (FieldKind::U64, Val::U64(x)) => {
            if x == 0 {
                assert(occ =~= Seq::<WireVal>::empty());
            } else {
                assert(occ =~= seq![WireVal::Varint(x)]);
            }
        },
        (FieldKind::Bool, Val::Bool(b)) => {
            if b {
                assert(occ =~= seq![WireVal::Varint(1)]);
            } else {
                assert(occ =~= Seq::<WireVal>::empty());
            }
        },
        (FieldKind::F32, Val::F32(bits)) => {
            if bits == 0 {
                assert(occ =~= Seq::<WireVal>::empty());
            } else {
                assert(occ =~= seq![WireVal::Fixed32(bits)]);
            }
        },
        (FieldKind::Str, Val::Str(st)) => {
            lemma_decode_utf8_of_encode(st);
            if st.len() == 0 {
                assert(occ =~= Seq::<WireVal>::empty());
                lemma_decode_utf8_empty();
                assert(st =~= Seq::<char>::empty());
            } else {
                assert(occ =~= seq![WireVal::Bytes(encode_utf8(st))]);
            }
        },
        (FieldKind::Bytes, Val::Bytes(b)) => {
            if b.len() == 0 {
                assert(occ =~= Seq::<WireVal>::empty());
                assert(b =~= Seq::<u8>::empty());
            } else {
                assert(occ =~= seq![WireVal::Bytes(b)]);
            }
        },
        (FieldKind::Strs, Val::Strs(ss)) => {
            assert(occ.len() == ss.len());
            assert forall|j: int| 0 <= j < occ.len() implies #[trigger] occ[j] == WireVal::Bytes(
                encode_utf8(ss[j]),
            ) by {}
            assert forall|j: int| 0 <= j < occ.len() implies valid_utf8(bytes_of(#[trigger] occ[j])) by {
                lemma_decode_utf8_of_encode(ss[j]);
            }
            assert forall|j: int| 0 <= j < occ.len() implies #[trigger] strings_of(occ)[j] == ss[j] by {
                lemma_decode_utf8_of_encode(ss[j]);
            }
            assert(strings_of(occ) =~= ss);
        },
        (FieldKind::Msg(t), Val::Msg(None)) => {
            assert(occ =~= Seq::<WireVal>::empty());
        },
        (FieldKind::Msg(t), Val::Msg(Some(inner))) => {
            let body = encode_spec(t, inner);
            assert(occ =~= seq![WireVal::Bytes(body)]);
            lemma_wire_from_ok(t, inner, 0);
            crate::wire::lemma_fields_roundtrip(wire_from(t, inner, 0));
            assert(parse_fields_spec(bytes_of(occ[0])) == Some(wire_from(t, inner, 0)));
            assert(occ.drop_last() =~= Seq::<WireVal>::empty());
            assert(flatten(Seq::<WireVal>::empty()) =~= Seq::<(u32, WireVal)>::empty());
            assert(occ.last() == occ[0]);
            assert(flatten(occ) =~= wire_from(t, inner, 0));
            lemma_schema_depth(t);
            lemma_decode_from_roundtrip(t, inner, 0, (limit - 1) as nat);
            assert(inner.subrange(0, inner.len() as int) =~= inner);
        },
        (FieldKind::Msgs(t), Val::Msgs(ms)) => {
            lemma_each_wire_shape(t, tag, ms, ms.len());
            lemma_each_roundtrip(t, tag, ms, ms.len(), (limit - 1) as nat);
            if ms.len() == 0 {
                assert(ms =~= Seq::<Seq<Val>>::empty());
            } else {
                lemma_schema_depth(t);
                assert(ms.take(ms.len() as int) =~= ms);
            }
        },
        _ => {},
    }
}

/// Each message of a repeated field comes back from the wire fields that
/// stand for it.
proof fn lemma_each_roundtrip(t: MsgType, tag: u32, ms: Seq<Seq<Val>>, n: nat, limit: nat)
    requires
        each_fits(t, ms, ms.len()),
        n <= ms.len(),
        1 <= tag <= MAX_FIELD_NUMBER,
        type_depth(t) <= limit + 1,
    ensures
        all_kind(wvals(each_wire(t, tag, ms, n)), WireKind::LengthDelimited),
        all_parse(wvals(each_wire(t, tag, ms, n))),
        type_depth(t) <= limit ==> decode_each(t, wvals(each_wire(t, tag, ms, n)), limit) == Some(
            ms.take(n as int),
        ),
    decreases ms, n,
{
    lemma_each_wire_shape(t, tag, ms, n);
    let occ = wvals(each_wire(t, tag, ms, n));
    assert forall|j: int| 0 <= j < occ.len() implies (#[trigger] parse_fields_spec(
        bytes_of(occ[j]),
    )) is Some by {
        lemma_each_fits_at(t, ms, ms.len(), j);
        lemma_wire_from_ok(t, ms[j], 0);
        crate::wire::lemma_fields_roundtrip(wire_from(t, ms[j], 0));
    }
    if n == 0 {
        assert(occ =~= Seq::<WireVal>::empty());
        assert(ms.take(0) =~= Seq::<Seq<Val>>::empty());
    } else {
        lemma_each_roundtrip(t, tag, ms, (n - 1) as nat, limit);
        let prev = wvals(each_wire(t, tag, ms, (n - 1) as nat));
        assert(occ.drop_last() =~= prev);
        let last = ms[n - 1];
        lemma_each_fits_at(t, ms, ms.len(), n - 1);
        lemma_wire_from_ok(t, last, 0);
        crate::wire::lemma_fields_roundtrip(wire_from(t, last, 0));
        assert(occ.last() == WireVal::Bytes(encode_spec(t, last)));
        if type_depth(t) <= limit {
            lemma_decode_from_roundtrip(t, last, 0, limit);
            assert(last.subrange(0, last.len() as int) =~= last);
            assert(ms.take(n as int) =~= ms.take(n - 1).push(last));
        }
    }
}

/// The values of a fitting message come back from its wire fields, field by
/// field from `i` on.
proof fn lemma_decode_from_roundtrip(t: MsgType, vs: Seq<Val>, i: nat, limit: nat)
    requires
        vs.len() == schema(t).len(),
        fits_from(t, vs, i),
        i <= vs.len(),
        type_depth(t) <= limit,
    ensures
        decode_from(t, wire_from(t, vs, 0), i, limit) == Some(vs.subrange(i as int, vs.len() as int)),
    decreases vs, schema(t).len() - i,
{
    if i >= schema(t).len() {
        assert(vs.subrange(i as int, vs.len() as int) =~= Seq::<Val>::empty());
    } else {
        lemma_schema_ok(t);
        lemma_schema_depth(t);
        let k = schema(t)[i as int].1;
        let tag = schema(t)[i as int].0;
        lemma_wire_from_occurrences(t, vs, i as int, 0);
        lemma_field_roundtrip(k, tag, vs[i as int], limit);
        lemma_decode_from_roundtrip(t, vs, i + 1, limit);
        assert(seq![vs[i as int]] + vs.subrange((i + 1) as int, vs.len() as int) =~= vs.subrange(
            i as int,
            vs.len() as int,
        ));
    }
}

/// Decoding an encoded message gives back its values: for every message of
/// the protocol and all values that fit its table.
pub proof fn lemma_decode_encode(t: MsgType, vs: Seq<Val>)
    requires
        message_fits(t, vs),
    ensures
        decode_spec(t, encode_spec(t, vs)) == Some(vs),
{
    lemma_wire_from_ok(t, vs, 0);
    crate::wire::lemma_fields_roundtrip(wire_from(t, vs, 0));
    lemma_schema_depth(t);
    lemma_decode_from_roundtrip(t, vs, 0, RECURSION_LIMIT as nat);
    assert(vs.subrange(0, vs.len() as int) =~= vs);
}


/// Whether `v` is of the variant that fields of type `k` hold.
pub open spec fn kind_matches(k: FieldKind, v: Val) -> bool {
    match (k, v) {
        (FieldKind::U32, Val::U32(_)) => true,
        (FieldKind::I32, Val::I32(_)) => true,
        (FieldKind::U64, Val::U64(_)) => true,
        (FieldKind::Bool, Val::Bool(_)) => true,
        (FieldKind::Str, Val::Str(_)) => true,
        (FieldKind::Bytes, Val::Bytes(_)) => true,
        (FieldKind::F32, Val::F32(_)) => true,
        (FieldKind::Strs, Val::Strs(_)) => true,
        (FieldKind::Msg(_), Val::Msg(_)) => true,
        (FieldKind::Msgs(_), Val::Msgs(_)) => true,
        _ => false,
    }
}

/// One value per field of `t`, each of the field's variant.
pub open spec fn shaped(t: MsgType, vs: Seq<Val>) -> bool {
    &&& vs.len() == schema(t).len()
    &&& forall|i: int| 0 <= i < vs.len() ==> kind_matches(#[trigger] schema(t)[i].1, vs[i])
}

proof fn lemma_field_value_kind(k: FieldKind, occ: Seq<WireVal>, limit: nat)
    ensures
        field_value(k, occ, limit) matches Some(v) ==> kind_matches(k, v),
{
}

proof fn lemma_decode_from_shape(t: MsgType, fs: Seq<(u32, WireVal)>, i: nat, limit: nat)
    requires
        i <= schema(t).len(),
    ensures
        decode_from(t, fs, i, limit) matches Some(v) ==> v.len() == schema(t).len() - i && forall|j: int|
            0 <= j < v.len() ==> kind_matches(#[trigger] schema(t)[i + j].1, v[j]),
    decreases schema(t).len() - i,
{
    if i < schema(t).len() {
        lemma_decode_from_shape(t, fs, i + 1, limit);
        lemma_field_value_kind(schema(t)[i as int].1, occurrences(fs, schema(t)[i as int].0), limit);
        if let Some(v) = decode_from(t, fs, i, limit) {
            let rest = decode_from(t, fs, i + 1, limit).unwrap();
            assert forall|j: int| 0 <= j < v.len() implies kind_matches(#[trigger] schema(t)[i + j].1, v[j]) by {
                if j > 0 {
                    assert(v[j] == rest[j - 1]);
                    assert(schema(t)[i + j] == schema(t)[(i + 1) + (j - 1)]);
                }
            }
        }
    }
}

/// A decoded message has one value per field, each of the field's variant.
pub proof fn lemma_decode_shape(t: MsgType, bytes: Seq<u8>)
    ensures
        decode_spec(t, bytes) matches Some(v) ==> shaped(t, v),
{
    if let Some(fs) = parse_fields_spec(bytes) {
        lemma_decode_from_shape(t, fs, 0, RECURSION_LIMIT as nat);
        if let Some(v) = decode_spec(t, bytes) {
            assert forall|i: int| 0 <= i < v.len() implies kind_matches(#[trigger] schema(t)[i].1, v[i]) by {
                assert(schema(t)[i] == schema(t)[0 + i]);
            }
        }
    }
}

proof fn lemma_decode_from_empty(t: MsgType, i: nat, limit: nat)
    ensures
        decode_from(t, Seq::empty(), i, limit) is Some,
    decreases schema(t).len() - i,
{
    if i < schema(t).len() {
        lemma_decode_from_empty(t, i + 1, limit);
        let occ = occurrences(Seq::<(u32, WireVal)>::empty(), schema(t)[i as int].0);
        assert(occ =~= Seq::<WireVal>::empty());
        assert(all_parse(occ));
        assert(all_utf8(occ));
        assert(all_kind(occ, WireKind::Varint));
        assert(all_kind(occ, WireKind::Fixed32));
        assert(all_kind(occ, WireKind::LengthDelimited));
        assert(field_value(schema(t)[i as int].1, occ, limit) is Some);
    }
}

/// An empty body decodes: every field at its default.
pub proof fn lemma_decode_empty(t: MsgType)
    ensures
        decode_spec(t, Seq::empty()) is Some,
{
    lemma_decode_from_empty(t, 0, RECURSION_LIMIT as nat);
}

/// The values of a message of type `t` with no field present.
pub open spec fn defaults(t: MsgType) -> Seq<Val> {
    decode_spec(t, Seq::empty()).unwrap()
}

/// `decode(data).unwrap_or_default()`: the values encoded in `data`, or the
/// defaults where decoding fails.
pub open spec fn decode_or_default(t: MsgType, data: Seq<u8>) -> Seq<Val> {
    match decode_spec(t, data) {
        Some(v) => v,
        None => defaults(t),
    }
}

/// Decodes a body of type `t`, or gives the defaults where that fails.
pub fn decode_or_default_exec(t: MsgType, data: &[u8]) -> (r: Vec<ProtoValue>)
    ensures
        values_view(r@) == decode_or_default(t, data@),
        shaped(t, values_view(r@)),
{
    proof {
        lemma_decode_shape(t, data@);
        lemma_decode_shape(t, Seq::empty());
        lemma_decode_empty(t);
    }
    match decode_message(t, data) {
        Some(v) => v,
        None => {
            let empty: Vec<u8> = Vec::new();
            assert(empty@ =~= Seq::<u8>::empty());
            match decode_message(t, empty.as_slice()) {
                Some(v) => v,
                None => Vec::new(),
            }
        },
    }
}

} // verus!
