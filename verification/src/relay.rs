//! The decisions of the remote-debug server: the frame sent to the mini
//! program for each DevTools message, and what becomes of each frame the
//! mini program sends.

use vstd::prelude::*;
use crate::codex::{
    debug_message_vals, unwrap_debug_message_data, unwrap_spec, wrap_debug_message_data, wrap_spec,
    DebugMessage,
};
use crate::constants::DebugMessageCategory;
use crate::json::{get_field, json_view, obj_get, text, JsonNumber, JsonV, JsonValue};
use crate::proto::{decode_spec, encode_spec, FieldKind, MsgType, Val};
use crate::wire::{field_ok, fields_bytes, lemma_field_bytes_max, lemma_fields_bytes_concat, lemma_fields_bytes_single, WireVal};
use vstd::utf8::encode_utf8;

verus! {

/// The JSON object that stands for a DevTools message `payload` with the
/// operation id `op_id`.
pub open spec fn cdp_request_json(payload: Seq<char>, op_id: u64) -> JsonV {
    JsonV::Object(
        seq![
            ("jscontext_id"@, JsonV::Str(Seq::empty())),
            ("op_id"@, JsonV::Number(JsonNumber::PosInt(op_id))),
            ("payload"@, JsonV::Str(payload)),
        ],
    )
}

/// The operation id drawn from a clock reading in nanoseconds: the last two
/// digits of its sub-microsecond part.
pub open spec fn op_id_of(clock_nanos: u128) -> u64 {
    ((clock_nanos % 1000) % 100) as u64
}

/// The frame that carries the DevTools message `payload` to the mini
/// program as message number `seq`.
pub open spec fn cdp_frame_spec(payload: Seq<char>, clock_nanos: u128, seq: u32) -> Seq<u8> {
    let wrapped = wrap_spec(
        cdp_request_json(payload, op_id_of(clock_nanos)),
        DebugMessageCategory::ChromeDevtools,
        0,
    );
    encode_spec(
        MsgType::DebugMessage,
        seq![
            Val::U32(seq),
            Val::U32(0),
            Val::Str("chromeDevtools"@),
            Val::Bytes(wrapped.0),
            Val::U32(0),
            Val::U32(wrapped.1),
        ],
    )
}

/// The part below one microsecond, in nanoseconds, of a clock reading
/// `since_epoch_nanos` (nanoseconds since the Unix epoch); the caller reads
/// the clock.
pub fn now_nanos(since_epoch_nanos: u128) -> (r: u32)
    ensures
        r == since_epoch_nanos % 1000,
        r < 1000,
{
    (since_epoch_nanos % 1000) as u32
}

/// Builds the frame that carries the DevTools message `payload` to the mini
/// program as message number `seq`, with an operation id drawn from the
/// clock reading `clock_nanos`.
pub fn wrap_cdp_for_miniapp(payload: &str, clock_nanos: u128, seq: u32) -> (r: Vec<u8>)
    ensures
        r@ == cdp_frame_spec(payload@, clock_nanos, seq),
{
    let op_id = (now_nanos(clock_nanos) % 100) as u64;
    let mut pairs: Vec<(String, JsonValue)> = Vec::new();
    pairs.push((text("jscontext_id"), JsonValue::Str(String::new())));
    pairs.push((text("op_id"), JsonValue::Number(JsonNumber::PosInt(op_id))));
    pairs.push((text("payload"), JsonValue::Str(text(payload))));
    let raw = JsonValue::Object(pairs);
    proof {
        crate::json::lemma_json_pairs_view(pairs@);
    }
    assert(json_view(raw) =~= cdp_request_json(payload@, op_id_of(clock_nanos))) by {
        assert(crate::json::json_pairs_view(pairs@) =~= cdp_request_json(payload@, op_id_of(clock_nanos))->Object_0);
    }
    let wrapped = wrap_debug_message_data(&raw, &DebugMessageCategory::ChromeDevtools, 0);
    let out = DebugMessage {
        seq,
        after: 0,
        category: text("chromeDevtools"),
        data: wrapped.buffer,
        compress_algo: 0,
        original_size: wrapped.original_size,
    };
    let r = out.encode();
    assert(debug_message_vals(out) =~= seq![
        Val::U32(seq),
        Val::U32(0),
        Val::Str("chromeDevtools"@),
        Val::Bytes(wrap_spec(cdp_request_json(payload@, op_id_of(clock_nanos)), DebugMessageCategory::ChromeDevtools, 0).0),
        Val::U32(0),
        Val::U32(wrap_spec(cdp_request_json(payload@, op_id_of(clock_nanos)), DebugMessageCategory::ChromeDevtools, 0).1),
    ]);
    r
}

/// The number after `n` in a connection's numbering of frames (after the
/// largest `u32` it starts again at 0).
pub open spec fn next_seq(n: u32) -> u32 {
    if n == u32::MAX {
        0
    } else {
        (n + 1) as u32
    }
}

/// The sending side of one connection to the mini program: it frames the
/// DevTools messages it is given and numbers them 1, 2, 3, ... in order.
pub struct DevtoolsLink {
    sent: u32,
}

impl View for DevtoolsLink {
    type V = u32;

    /// The number of the last frame built (0 before the first).
    closed spec fn view(&self) -> u32 {
        self.sent
    }
}

impl DevtoolsLink {
    /// A link that has framed nothing yet.
    pub fn new() -> (r: DevtoolsLink)
        ensures
            r@ == 0,
    {
        DevtoolsLink { sent: 0 }
    }

    /// Frames the DevTools message `payload` as the next message of the
    /// link, with an operation id drawn from the clock reading `clock_nanos`.
    pub fn frame(&mut self, payload: &str, clock_nanos: u128) -> (r: Vec<u8>)
        ensures
            final(self)@ == next_seq(old(self)@),
            r@ == cdp_frame_spec(payload@, clock_nanos, final(self)@),
    {
        self.sent = self.sent.wrapping_add(1);
        wrap_cdp_for_miniapp(payload, clock_nanos, self.sent)
    }
}

/// On a new link the `k`-th frame carries the number `k`, for every `k` up
/// to the largest `u32`.
pub proof fn lemma_link_numbering(counts: Seq<u32>)
    requires
        counts.len() >= 1,
        counts[0] == 0,
        forall|i: int| 0 <= i < counts.len() - 1 ==> #[trigger] counts[i + 1] == next_seq(counts[i]),
        counts.len() - 1 <= u32::MAX,
    ensures
        forall|k: int| 0 <= k < counts.len() ==> #[trigger] counts[k] == k,
    decreases counts.len(),
{
    if counts.len() > 1 {
        let shorter = counts.drop_last();
        assert forall|i: int| 0 <= i < shorter.len() - 1 implies #[trigger] shorter[i + 1] == next_seq(shorter[i]) by {
            assert(shorter[i + 1] == counts[i + 1]);
        }
        lemma_link_numbering(shorter);
        assert forall|k: int| 0 <= k < counts.len() implies #[trigger] counts[k] == k by {
            if k < counts.len() - 1 {
                assert(shorter[k] == counts[k]);
            } else {
                assert(shorter[k - 1] == counts[k - 1]);
                assert(counts[k] == next_seq(counts[k - 1]));
            }
        }
    }
}

/// What becomes of a frame from the mini program.
pub enum MiniappInbound {
    /// The frame is not a debug message.
    Malformed,
    /// The frame's message, unwrapped, and the DevTools payload to pass on,
    /// where it carries one.
    Message { unwrapped: JsonValue, forward: Option<String> },
}

/// The DevTools payload that an unwrapped message carries: the `payload`
/// string of its data where its category is `chromeDevtoolsResult`.
pub open spec fn forward_spec(u: JsonV) -> Option<Seq<char>> {
    match obj_get(u, "category"@) {
        Some(JsonV::Str(c)) => if c == "chromeDevtoolsResult"@ {
            match obj_get(u, "data"@) {
                Some(d) => match obj_get(d, "payload"@) {
                    Some(JsonV::Str(p)) => Some(p),
                    _ => None,
                },
                None => None,
            }
        } else {
            None
        },
        _ => None,
    }
}

/// The unwrapped JSON of a frame from the mini program, where it decodes.
pub open spec fn inbound_spec(data: Seq<u8>) -> Option<JsonV> {
    match decode_spec(MsgType::DebugMessage, data) {
        None => None,
        Some(v) => Some(unwrap_spec(
            v[0]->U32_0,
            v[1]->U32_0,
            v[2]->Str_0,
            v[3]->Bytes_0,
            v[4]->U32_0,
            v[5]->U32_0,
        )),
    }
}

/// Decodes a frame from the mini program, unwraps its message, and picks
/// out the DevTools payload to pass on.
pub fn handle_miniapp_frame(data: &[u8]) -> (r: MiniappInbound)
    ensures
        match inbound_spec(data@) {
            None => r is Malformed,
            Some(u) => r matches MiniappInbound::Message { unwrapped, forward } && json_view(unwrapped)
                == u && match forward_spec(u) {
                None => forward is None,
                Some(p) => forward matches Some(s) && s@ == p,
            },
        },
{
    match DebugMessage::decode(data) {
        None => MiniappInbound::Malformed,
        Some(m) => {
            let unwrapped = unwrap_debug_message_data(&m);
            let forward = forward_of(&unwrapped);
            MiniappInbound::Message { unwrapped, forward }
        },
    }
}

/// `u["category"] == "chromeDevtoolsResult"` then `u["data"]["payload"]`.
fn forward_of(u: &JsonValue) -> (r: Option<String>)
    ensures
        match forward_spec(json_view(*u)) {
            None => r is None,
            Some(p) => r matches Some(s) && s@ == p,
        },
{
    match get_field(u, "category") {
        Some(JsonValue::Str(c)) => {
            if crate::json::str_equal(c.as_str(), "chromeDevtoolsResult") {
                match get_field(u, "data") {
                    Some(d) => match get_field(d, "payload") {
                        Some(JsonValue::Str(p)) => Some(p.clone()),
                        _ => None,
                    },
                    None => None,
                }
            } else {
                None
            }
        },
        _ => None,
    }
}


/// Every `chromeDevtoolsResult` message from the mini program whose body is
/// not compressed has its DevTools payload passed on unchanged: for every
/// frame number, delay, operation id, payload and context id.
pub proof fn lemma_result_payload_forwarded(m: DebugMessage, result: Seq<Val>)
    requires
        m.category@ == "chromeDevtoolsResult"@,
        m.compress_algo & crate::constants::COMPRESS_ZLIB == 0,
        crate::proto::message_fits(MsgType::ChromeDevtoolsResult, result),
        m.data@ == encode_spec(MsgType::ChromeDevtoolsResult, result),
        crate::codex::debug_message_fits(m),
    ensures
        inbound_spec(encode_spec(MsgType::DebugMessage, debug_message_vals(m))) matches Some(u)
            && forward_spec(u) == Some(result[1]->Str_0),
{
    crate::codex::lemma_debug_message_roundtrip(m);
    crate::proto::lemma_decode_encode(MsgType::ChromeDevtoolsResult, result);
    crate::constants::lemma_category_roundtrip(DebugMessageCategory::ChromeDevtoolsResult);
    reveal_with_fuel(crate::proto::fits_from, 4);
    assert(crate::proto::value_fits(FieldKind::Str, result[1]));
    reveal_strlit("seq");
    reveal_strlit("delay");
    reveal_strlit("category");
    reveal_strlit("data");
    reveal_strlit("op_id");
    reveal_strlit("payload");
    assert(crate::constants::category_name(DebugMessageCategory::ChromeDevtoolsResult) == m.category@);
    assert(crate::constants::category_named(m.category@) == Some(DebugMessageCategory::ChromeDevtoolsResult));
    let u = inbound_spec(encode_spec(MsgType::DebugMessage, debug_message_vals(m))).unwrap();
    assert(u == unwrap_spec(m.seq, m.after, m.category@, m.data@, m.compress_algo, m.original_size));
    let ps = u->Object_0;
    assert(ps[0].0 == "seq"@);
    assert(ps[1].0 == "delay"@);
    assert(ps[0].0 != "category"@);
    assert(ps[1].0 != "category"@);
    assert(ps.drop_first().drop_first()[0].0 == "category"@);
    assert(ps[0].0 != "data"@);
    assert(ps[1].0 != "data"@);
    assert(ps[2].0 != "data"@);
    assert(ps.drop_first().drop_first().drop_first()[0].0 == "data"@);
    let d = crate::codex::category_json(
        DebugMessageCategory::ChromeDevtoolsResult,
        crate::codex::inflate_if_zlib(m.data@, m.compress_algo),
    );
    assert(crate::codex::inflate_if_zlib(m.data@, m.compress_algo) == m.data@);
    assert(crate::proto::decode_or_default(MsgType::ChromeDevtoolsResult, m.data@) == result);
    let dp = d->Object_0;
    assert(dp[0].0 == "op_id"@);
    assert(dp[1].0 == "payload"@);
    assert(dp[1].1 == JsonV::Str(result[1]->Str_0));
    assert(dp[0].0 != "payload"@);
    assert(dp.drop_first()[0].0 == "payload"@);
    reveal_with_fuel(crate::json::pairs_get, 5);
}


proof fn lemma_utf8_len_bound(s: Seq<char>)
    ensures
        encode_utf8(s).len() <= 4 * s.len(),
    decreases s.len(),
{
    if s.len() > 0 {
        lemma_utf8_len_bound(s.drop_first());
    }
}

/// The encoding of at most one field, at most twenty bytes besides the
/// bytes it carries.
proof fn lemma_optional_field_len(ws: Seq<(u32, WireVal)>, carried: nat)
    requires
        ws.len() <= 1,
        ws.len() == 1 ==> field_ok(ws[0]) && match ws[0].1 {
            WireVal::Bytes(b) => b.len() <= carried,
            _ => true,
        },
    ensures
        fields_bytes(ws).len() <= 20 + carried,
{
    if ws.len() == 1 {
        assert(ws =~= seq![ws[0]]);
        lemma_fields_bytes_single(ws[0]);
        lemma_field_bytes_max(ws[0]);
    } else {
        assert(fields_bytes(ws) =~= Seq::<u8>::empty());
    }
}

/// Every DevTools message reaches the mini program whole: the frame built
/// for it decodes as message number `seq` of category `chromeDevtools`,
/// uncompressed, whose body decodes to the operation id drawn from the
/// clock, the payload itself and an empty context id; for every payload
/// whose UTF-8 fits a frame.
#[verifier::spinoff_prover]
#[verifier::rlimit(50)]
pub proof fn lemma_devtools_payload_delivered(payload: Seq<char>, clock_nanos: u128, seq: u32)
    requires
        encode_utf8(payload).len() + 64 <= u64::MAX,
    ensures
        decode_spec(MsgType::DebugMessage, cdp_frame_spec(payload, clock_nanos, seq)) matches Some(v)
            && v[0] == Val::U32(seq) && v[1] == Val::U32(0) && v[2] == Val::Str("chromeDevtools"@)
            && v[4] == Val::U32(0) && decode_spec(MsgType::ChromeDevtools, v[3]->Bytes_0) == Some(
            seq![
                Val::U32(op_id_of(clock_nanos) as u32),
                Val::Str(payload),
                Val::Str(Seq::empty()),
            ],
        ),
{
    let op = op_id_of(clock_nanos);
    let j = cdp_request_json(payload, op);
    reveal_strlit("jscontext_id");
    reveal_strlit("op_id");
    reveal_strlit("payload");
    reveal_strlit("chromeDevtools");
    let vc = seq![Val::U32(op as u32), Val::Str(payload), Val::Str(Seq::empty())];
    assert(crate::codex::values_from_json(MsgType::ChromeDevtools, j) =~= vc) by {
        reveal_with_fuel(crate::json::pairs_get, 4);
        let ps = j->Object_0;
        assert(ps[0].0 == "jscontext_id"@);
        assert(ps[0].0.len() != "op_id"@.len());
        assert(ps[0].0.len() != "payload"@.len());
        assert(ps[0].0 != "op_id"@);
        assert(ps.drop_first()[0].0 == "op_id"@);
        assert(ps[0].0 != "payload"@);
        assert(ps.drop_first()[0].0 != "payload"@);
        assert(ps.drop_first().drop_first()[0].0 == "payload"@);
    }
    assert(0u32 & 1u32 == 0u32) by (bit_vector);
    let body = encode_spec(MsgType::ChromeDevtools, vc);
    assert(wrap_spec(j, DebugMessageCategory::ChromeDevtools, 0) == (body, 0u32));
    reveal_with_fuel(crate::proto::fits_from, 7);
    assert(crate::proto::message_fits(MsgType::ChromeDevtools, vc));
    crate::proto::lemma_decode_encode(MsgType::ChromeDevtools, vc);
    reveal_with_fuel(crate::proto::wire_from, 4);
    let a = crate::proto::field_wire(FieldKind::U32, 1, vc[0]);
    let b = crate::proto::field_wire(FieldKind::Str, 2, vc[1]);
    assert(crate::proto::wire_from(MsgType::ChromeDevtools, vc, 0) =~= a + b);
    lemma_fields_bytes_concat(a, b);
    lemma_optional_field_len(a, 0);
    lemma_optional_field_len(b, encode_utf8(payload).len());
    assert(body.len() <= 40 + encode_utf8(payload).len());
    lemma_utf8_len_bound("chromeDevtools"@);
    let vd = seq![
        Val::U32(seq),
        Val::U32(0),
        Val::Str("chromeDevtools"@),
        Val::Bytes(body),
        Val::U32(0),
        Val::U32(0),
    ];
    assert(crate::proto::message_fits(MsgType::DebugMessage, vd));
    crate::proto::lemma_decode_encode(MsgType::DebugMessage, vd);
    assert(cdp_frame_spec(payload, clock_nanos, seq) == encode_spec(MsgType::DebugMessage, vd));
}

} // verus!
