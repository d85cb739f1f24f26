//! The protobuf wire format: varints, field keys, and the flat list of
//! fields that a message body consists of.
//!
//! The primitive varint and key codecs are those of `prost`; the field list
//! on top of them is parsed and written by verified code.

use vstd::prelude::*;
use vstd::utf8::{decode_utf8, valid_utf8};
use prost::encoding::{DecodeContext, WireType};

verus! {

/// Largest field number that protobuf allows.
pub const MAX_FIELD_NUMBER: u32 = 536870911;

/// The wire type carried in the low three bits of a field key.
#[derive(Clone, Copy, Debug, PartialEq, Eq, Structural)]
pub enum WireKind {
    Varint,
    Fixed64,
    LengthDelimited,
    StartGroup,
    EndGroup,
    Fixed32,
}

pub open spec fn kind_code(k: WireKind) -> nat {
    match k {
        WireKind::Varint => 0,
        WireKind::Fixed64 => 1,
        WireKind::LengthDelimited => 2,
        WireKind::StartGroup => 3,
        WireKind::EndGroup => 4,
        WireKind::Fixed32 => 5,
    }
}

pub open spec fn kind_of_code(c: nat) -> WireKind {
    if c == 0 {
        WireKind::Varint
    } else if c == 1 {
        WireKind::Fixed64
    } else if c == 2 {
        WireKind::LengthDelimited
    } else if c == 3 {
        WireKind::StartGroup
    } else if c == 4 {
        WireKind::EndGroup
    } else {
        WireKind::Fixed32
    }
}

/// LEB128: seven bits per byte, least significant group first, the high bit
/// of every byte but the last set.
pub open spec fn varint_bytes(v: nat) -> Seq<u8>
    decreases v,
{
    if v < 128 {
        seq![v as u8]
    } else {
        seq![(v % 128 + 128) as u8] + varint_bytes(v / 128)
    }
}

/// Reads a LEB128 value of at most `budget` bytes from the front of `s`; the
/// last byte allowed may only hold the values 0 and 1 (so that the value fits
/// in 64 bits when `budget` is 10). Gives the value and the bytes consumed.
pub open spec fn leb_decode(s: Seq<u8>, budget: nat) -> Option<(nat, nat)>
    decreases budget,
{
    if budget == 0 || s.len() == 0 {
        None
    } else if s[0] < 128 {
        if budget == 1 && s[0] >= 2 {
            None
        } else {
            Some((s[0] as nat, 1nat))
        }
    } else {
        match leb_decode(s.drop_first(), (budget - 1) as nat) {
            None => None,
            Some((v, n)) => Some((((s[0] - 128) + 128 * v) as nat, n + 1)),
        }
    }
}

/// The varint at the front of `s`, as protobuf reads it (ten bytes at most).
pub open spec fn varint_decode(s: Seq<u8>) -> Option<(nat, nat)> {
    leb_decode(s, 10)
}

/// Bound on the values that `leb_decode` can give with a budget.
pub open spec fn leb_cap(budget: nat) -> nat
    decreases budget,
{
    if budget <= 1 {
        2
    } else {
        128 * leb_cap((budget - 1) as nat)
    }
}

/// The field key at the front of `s`: its field number, wire type, and the
/// number of bytes it takes. Keys above `u32::MAX`, wire types 6 and 7 and
/// field number 0 are refused.
pub open spec fn key_decode(s: Seq<u8>) -> Option<(u32, WireKind, nat)> {
    match varint_decode(s) {
        None => None,
        Some((k, n)) => {
            if k > u32::MAX as nat || k % 8 > 5 || k / 8 == 0 {
                None
            } else {
                Some(((k / 8) as u32, kind_of_code(k % 8), n))
            }
        },
    }
}

pub open spec fn key_bytes(tag: u32, k: WireKind) -> Seq<u8> {
    varint_bytes((tag * 8 + kind_code(k)) as nat)
}

/// A field value as it stands on the wire. A group is skipped whole and
/// keeps nothing of its body.
pub enum WireVal {
    Varint(u64),
    Fixed64(u64),
    Bytes(Seq<u8>),
    Fixed32(u32),
    Group,
}

pub open spec fn wire_kind(v: WireVal) -> WireKind {
    match v {
        WireVal::Varint(_) => WireKind::Varint,
        WireVal::Fixed64(_) => WireKind::Fixed64,
        WireVal::Bytes(_) => WireKind::LengthDelimited,
        WireVal::Fixed32(_) => WireKind::Fixed32,
        WireVal::Group => WireKind::StartGroup,
    }
}

pub open spec fn le_u32(b: Seq<u8>) -> u32 {
    (b[0] + 256 * b[1] + 65536 * b[2] + 16777216 * b[3]) as u32
}

pub open spec fn le_u64(b: Seq<u8>) -> u64 {
    (le_u32(b) + 4294967296 * le_u32(b.skip(4))) as u64
}

pub open spec fn le_bytes32(x: u32) -> Seq<u8> {
    seq![
        (x % 256) as u8,
        ((x / 256) % 256) as u8,
        ((x / 65536) % 256) as u8,
        ((x / 16777216) % 256) as u8,
    ]
}

pub open spec fn le_bytes64(x: u64) -> Seq<u8> {
    le_bytes32((x % 4294967296) as u32) + le_bytes32((x / 4294967296) as u32)
}

/// Reads the value of a field of wire type `k` from the front of `s`. Group
/// keys are not read here (see `field_value_decode`).
pub open spec fn value_decode(k: WireKind, s: Seq<u8>) -> Option<(WireVal, nat)> {
    match k {
        WireKind::Varint => match varint_decode(s) {
            None => None,
            Some((v, n)) => Some((WireVal::Varint(v as u64), n)),
        },
        WireKind::Fixed64 => if s.len() >= 8 {
            Some((WireVal::Fixed64(le_u64(s)), 8nat))
        } else {
            None
        },
        WireKind::LengthDelimited => match varint_decode(s) {
            None => None,
            Some((len, n)) => if n + len <= s.len() {
                Some((WireVal::Bytes(s.subrange(n as int, (n + len) as int)), (n + len) as nat))
            } else {
                None
            },
        },
        WireKind::Fixed32 => if s.len() >= 4 {
            Some((WireVal::Fixed32(le_u32(s)), 4nat))
        } else {
            None
        },
        _ => None,
    }
}

/// The encoding of a field value, without its key.
pub open spec fn value_bytes(v: WireVal) -> Seq<u8> {
    match v {
        WireVal::Varint(x) => varint_bytes(x as nat),
        WireVal::Fixed64(x) => le_bytes64(x),
        WireVal::Bytes(b) => varint_bytes(b.len()) + b,
        WireVal::Fixed32(x) => le_bytes32(x),
        WireVal::Group => Seq::empty(),
    }
}

/// The encoding of one field: its key, then its value.
pub open spec fn field_bytes(f: (u32, WireVal)) -> Seq<u8> {
    key_bytes(f.0, wire_kind(f.1)) + value_bytes(f.1)
}

/// The encoding of a list of fields, in order.
pub open spec fn fields_bytes(fs: Seq<(u32, WireVal)>) -> Seq<u8>
    decreases fs.len(),
{
    if fs.len() == 0 {
        Seq::empty()
    } else {
        field_bytes(fs[0]) + fields_bytes(fs.drop_first())
    }
}

/// The start of the text of every `prost::DecodeError`.
pub open spec fn decode_error_prefix() -> Seq<char> {
    "failed to decode Protobuf message: "@
}

/// What `prost::encoding::skip_field` makes of a field with number `tag` and
/// wire type `k` whose value stands at the front of `s`: how many bytes it
/// skips (for a group, up to and including the end-group key that closes
/// it), or the cause of its error. For the other wire types the outcome is
/// stated by `take_skip`.
pub uninterp spec fn skip_field_result(k: WireKind, tag: u32, s: Seq<u8>) -> Result<nat, Seq<char>>;

/// The decimal digits of `n`.
pub open spec fn decimal(n: nat) -> Seq<char>
    decreases n,
{
    if n < 10 {
        seq![(48 + n) as char]
    } else {
        decimal(n / 10).push((48 + n % 10) as char)
    }
}

/// The name prost's `WireType` gives a wire type.
pub open spec fn wire_type_name(k: WireKind) -> Seq<char> {
    match k {
        WireKind::Varint => "Varint"@,
        WireKind::Fixed64 => "SixtyFourBit"@,
        WireKind::LengthDelimited => "LengthDelimited"@,
        WireKind::StartGroup => "StartGroup"@,
        WireKind::EndGroup => "EndGroup"@,
        WireKind::Fixed32 => "ThirtyTwoBit"@,
    }
}

/// The cause prost gives for a value of wire type `actual` where it
/// expects `expected`.
pub open spec fn wire_type_error(actual: WireKind, expected: WireKind) -> Seq<char> {
    "invalid wire type: "@ + wire_type_name(actual) + " (expected "@ + wire_type_name(expected) + ")"@
}

/// The cause of the error of `prost::encoding::decode_key` on `s`, where it
/// fails: a varint that does not read, a key above `u32::MAX`, a wire type
/// above 5, or field number 0, checked in that order.
pub open spec fn decode_key_error(s: Seq<u8>) -> Seq<char> {
    match varint_decode(s) {
        None => "invalid varint"@,
        Some((key, _)) => if key > u32::MAX as nat {
            "invalid key value: "@ + decimal(key)
        } else if key % 8 > 5 {
            "invalid wire type value: "@ + decimal(key % 8)
        } else {
            "invalid tag value: 0"@
        },
    }
}

/// The cause of the error of `prost::encoding::uint32::merge` on a value of
/// wire type `k` at the front of `s`, where it fails.
pub open spec fn uint32_merge_error(k: WireKind, s: Seq<u8>) -> Seq<char> {
    if k != WireKind::Varint {
        wire_type_error(k, WireKind::Varint)
    } else {
        "invalid varint"@
    }
}

/// The cause of the error of `prost::encoding::bytes::merge` on a value of
/// wire type `k` at the front of `s`, where it fails: the wrong wire type, a
/// length that does not read, or fewer bytes than it gives.
pub open spec fn bytes_merge_error(k: WireKind, s: Seq<u8>) -> Seq<char> {
    if k != WireKind::LengthDelimited {
        wire_type_error(k, WireKind::LengthDelimited)
    } else if varint_decode(s) is None {
        "invalid varint"@
    } else {
        "buffer underflow"@
    }
}

/// The cause of the error of `prost::encoding::string::merge` on a value of
/// wire type `k` at the front of `s`, where it fails: as for `bytes`, or
/// bytes that are not UTF-8.
pub open spec fn string_merge_error(k: WireKind, s: Seq<u8>) -> Seq<char> {
    if k == WireKind::LengthDelimited && value_decode(k, s) is Some {
        "invalid string value: data is not UTF-8 encoded"@
    } else {
        bytes_merge_error(k, s)
    }
}

/// The cause of the error of `prost::encoding::skip_field` on a value of a
/// wire type other than a group start, where it fails.
pub open spec fn skip_error(k: WireKind, s: Seq<u8>) -> Seq<char> {
    match k {
        WireKind::Varint => "invalid varint"@,
        WireKind::LengthDelimited => if varint_decode(s) is None {
            "invalid varint"@
        } else {
            "buffer underflow"@
        },
        WireKind::EndGroup => "unexpected end group tag"@,
        _ => "buffer underflow"@,
    }
}

/// Reads the value of a field with number `tag` and wire type `k` from the
/// front of `s`: a group is skipped to its end.
pub open spec fn field_value_decode(tag: u32, k: WireKind, s: Seq<u8>) -> Option<(WireVal, nat)> {
    if k == WireKind::StartGroup {
        match skip_field_result(k, tag, s) {
            Err(_) => None,
            Ok(m) => Some((WireVal::Group, m)),
        }
    } else {
        value_decode(k, s)
    }
}

/// The fields of a message body, in the order in which they stand; `None`
/// where the body is malformed.
pub open spec fn parse_fields_spec(s: Seq<u8>) -> Option<Seq<(u32, WireVal)>>
    decreases s.len(),
{
    if s.len() == 0 {
        Some(Seq::empty())
    } else {
        match key_decode(s) {
            None => None,
            Some((tag, k, n)) => match field_value_decode(tag, k, s.skip(n as int)) {
                None => None,
                Some((v, m)) => {
                    if 1 <= n + m <= s.len() {
                        match parse_fields_spec(s.skip((n + m) as int)) {
                            None => None,
                            Some(rest) => Some(seq![(tag, v)] + rest),
                        }
                    } else {
                        None
                    }
                },
            },
        }
    }
}

/// A field is well formed when its number is one that protobuf allows, it
/// is not a group, and its length, if it has one, can be written as a varint.
pub open spec fn field_ok(f: (u32, WireVal)) -> bool {
    &&& 1 <= f.0 <= MAX_FIELD_NUMBER
    &&& !(f.1 is Group)
    &&& match f.1 {
        WireVal::Bytes(b) => b.len() <= u64::MAX,
        _ => true,
    }
}

pub proof fn lemma_leb_bounds(s: Seq<u8>, budget: nat)
    ensures
        leb_decode(s, budget) matches Some((v, n)) ==> 1 <= n <= s.len() && n <= budget && v
            < leb_cap(budget),
    decreases budget,
{
    lemma_leb_cap_min(budget);
    if budget > 1 && s.len() > 0 && s[0] >= 128 {
        lemma_leb_bounds(s.drop_first(), (budget - 1) as nat);
        lemma_leb_cap_min((budget - 1) as nat);
        assert(leb_cap(budget) == 128 * leb_cap((budget - 1) as nat));
        if let Some((v1, n1)) = leb_decode(s.drop_first(), (budget - 1) as nat) {
            assert(v1 + 1 <= leb_cap((budget - 1) as nat));
            assert((s[0] - 128) + 128 * v1 < 128 * (v1 + 1));
            assert(128 * (v1 + 1) <= 128 * leb_cap((budget - 1) as nat)) by (nonlinear_arith)
                requires v1 + 1 <= leb_cap((budget - 1) as nat);
        }
    }
}

proof fn lemma_leb_cap_min(budget: nat)
    ensures
        leb_cap(budget) >= 2,
        budget >= 2 ==> leb_cap(budget) >= 256,
    decreases budget,
{
    if budget > 1 {
        lemma_leb_cap_min((budget - 1) as nat);
    }
}

pub proof fn lemma_leb_cap_10()
    ensures
        leb_cap(10) == 18446744073709551616,
{
    reveal_with_fuel(leb_cap, 11);
}

pub proof fn lemma_varint_bytes_len(v: nat)
    ensures
        varint_bytes(v).len() >= 1,
    decreases v,
{
    if v >= 128 {
        lemma_varint_bytes_len(v / 128);
    }
}

proof fn lemma_varint_len_cap(v: nat, budget: nat)
    requires
        budget >= 1,
        v < leb_cap(budget),
    ensures
        varint_bytes(v).len() <= budget,
    decreases v,
{
    if v >= 128 {
        if budget <= 1 {
            assert(leb_cap(budget) == 2);
        }
        let c = leb_cap((budget - 1) as nat);
        assert(leb_cap(budget) == 128 * c);
        assert(v / 128 < c) by (nonlinear_arith)
            requires
                v < 128 * c,
        ;
        lemma_varint_len_cap(v / 128, (budget - 1) as nat);
    }
}

/// A varint of a 64-bit value takes at most ten bytes.
pub proof fn lemma_varint_bytes_max(v: nat)
    requires
        v < 18446744073709551616,
    ensures
        1 <= varint_bytes(v).len() <= 10,
{
    lemma_leb_cap_10();
    lemma_varint_len_cap(v, 10);
    lemma_varint_bytes_len(v);
}

/// The encoding of one field takes at most twenty bytes besides the bytes
/// it carries.
pub proof fn lemma_field_bytes_max(f: (u32, WireVal))
    requires
        field_ok(f),
    ensures
        field_bytes(f).len() <= 20 + match f.1 {
            WireVal::Bytes(b) => b.len(),
            _ => 0,
        },
{
    lemma_varint_bytes_max((f.0 * 8 + kind_code(wire_kind(f.1))) as nat);
    match f.1 {
        WireVal::Varint(x) => lemma_varint_bytes_max(x as nat),
        WireVal::Bytes(b) => lemma_varint_bytes_max(b.len()),
        _ => {},
    }
}

/// Reading back a varint that was written gives the value and its length,
/// whatever follows it.
pub proof fn lemma_leb_roundtrip(v: nat, t: Seq<u8>, budget: nat)
    requires
        budget >= 1,
        v < leb_cap(budget),
    ensures
        leb_decode(varint_bytes(v) + t, budget) == Some((v, varint_bytes(v).len())),
    decreases v,
{
    let s = varint_bytes(v) + t;
    if v < 128 {
        assert(s[0] == v as u8);
    } else {
        if budget <= 1 {
            assert(false);
        }
        assert(s.drop_first() =~= varint_bytes(v / 128) + t);
        lemma_leb_roundtrip(v / 128, t, (budget - 1) as nat);
    }
}

pub proof fn lemma_varint_roundtrip(v: nat, t: Seq<u8>)
    requires
        v < 18446744073709551616,
    ensures
        varint_decode(varint_bytes(v) + t) == Some((v, varint_bytes(v).len())),
{
    lemma_leb_cap_10();
    lemma_leb_roundtrip(v, t, 10);
}

pub proof fn lemma_key_bounds(s: Seq<u8>)
    ensures
        key_decode(s) matches Some((tag, k, n)) ==> 1 <= n <= s.len(),
{
    lemma_leb_bounds(s, 10);
}

pub proof fn lemma_value_bounds(k: WireKind, s: Seq<u8>)
    ensures
        value_decode(k, s) matches Some((v, m)) ==> m <= s.len(),
{
    lemma_leb_bounds(s, 10);
}

proof fn lemma_le32_roundtrip(x: u32, t: Seq<u8>)
    ensures
        le_u32(le_bytes32(x) + t) == x,
{
    let s = le_bytes32(x) + t;
    assert(s[0] == (x % 256) as u8);
    assert(s[1] == ((x / 256) % 256) as u8);
    assert(s[2] == ((x / 65536) % 256) as u8);
    assert(s[3] == ((x / 16777216) % 256) as u8);
}

proof fn lemma_le64_roundtrip(x: u64, t: Seq<u8>)
    ensures
        le_u64(le_bytes64(x) + t) == x,
{
    let lo = (x % 4294967296) as u32;
    let hi = (x / 4294967296) as u32;
    let s = le_bytes64(x) + t;
    assert(s =~= le_bytes32(lo) + (le_bytes32(hi) + t));
    lemma_le32_roundtrip(lo, le_bytes32(hi) + t);
    assert(s.skip(4) =~= le_bytes32(hi) + t);
    lemma_le32_roundtrip(hi, t);
}

/// Reading back one written field gives the field and its length.
pub proof fn lemma_field_roundtrip(f: (u32, WireVal), t: Seq<u8>)
    requires
        field_ok(f),
    ensures
        key_decode(field_bytes(f) + t) == Some(
            (f.0, wire_kind(f.1), key_bytes(f.0, wire_kind(f.1)).len()),
        ),
        value_decode(wire_kind(f.1), (field_bytes(f) + t).skip(key_bytes(f.0, wire_kind(f.1)).len() as int))
            == Some((f.1, value_bytes(f.1).len())),
{
    let kb = key_bytes(f.0, wire_kind(f.1));
    let vb = value_bytes(f.1);
    let key = f.0 * 8 + kind_code(wire_kind(f.1));
    assert(field_bytes(f) + t =~= kb + (vb + t));
    lemma_varint_roundtrip(key as nat, vb + t);
    assert(key / 8 == f.0 && key % 8 == kind_code(wire_kind(f.1)));
    assert(kind_of_code(kind_code(wire_kind(f.1))) == wire_kind(f.1));
    let rest = (field_bytes(f) + t).skip(kb.len() as int);
    assert(rest =~= vb + t);
    match f.1 {
        WireVal::Varint(x) => {
            lemma_varint_roundtrip(x as nat, t);
        },
        WireVal::Fixed64(x) => {
            lemma_le64_roundtrip(x, t);
        },
        WireVal::Bytes(b) => {
            lemma_varint_roundtrip(b.len(), b + t);
            assert(vb + t =~= varint_bytes(b.len()) + (b + t));
            let n = varint_bytes(b.len()).len();
            assert((vb + t).subrange(n as int, (n + b.len()) as int) =~= b);
        },
        WireVal::Fixed32(x) => {
            lemma_le32_roundtrip(x, t);
        },
        WireVal::Group => {},
    }
}

/// Parsing the encoding of well-formed fields gives the fields back.
pub proof fn lemma_fields_roundtrip(fs: Seq<(u32, WireVal)>)
    requires
        forall|i: int| 0 <= i < fs.len() ==> field_ok(#[trigger] fs[i]),
    ensures
        parse_fields_spec(fields_bytes(fs)) == Some(fs),
    decreases fs.len(),
{
    if fs.len() > 0 {
        let f = fs[0];
        let rest = fs.drop_first();
        let s = fields_bytes(fs);
        assert(field_ok(f));
        lemma_field_roundtrip(f, fields_bytes(rest));
        let kb = key_bytes(f.0, wire_kind(f.1));
        let vb = value_bytes(f.1);
        assert(s =~= field_bytes(f) + fields_bytes(rest));
        assert(s.skip((kb.len() + vb.len()) as int) =~= fields_bytes(rest));
        lemma_fields_roundtrip(rest);
        assert(seq![f] + rest =~= fs);
    } else {
        assert(fields_bytes(fs) =~= Seq::<u8>::empty());
    }
}

/// The encoding of two lists of fields side by side is the encoding of
/// their concatenation.
pub proof fn lemma_fields_bytes_concat(a: Seq<(u32, WireVal)>, b: Seq<(u32, WireVal)>)
    ensures
        fields_bytes(a + b) == fields_bytes(a) + fields_bytes(b),
    decreases a.len(),
{
    if a.len() == 0 {
        assert(a + b =~= b);
        assert(fields_bytes(a) + fields_bytes(b) =~= fields_bytes(b));
    } else {
        assert((a + b).drop_first() =~= a.drop_first() + b);
        lemma_fields_bytes_concat(a.drop_first(), b);
        assert(fields_bytes(a + b) =~= field_bytes(a[0]) + fields_bytes(a.drop_first() + b));
        assert(fields_bytes(a) + fields_bytes(b) =~= field_bytes(a[0]) + (fields_bytes(a.drop_first()) + fields_bytes(b)));
    }
}

/// The encoding of a single field is that field's encoding.
pub proof fn lemma_fields_bytes_single(f: (u32, WireVal))
    ensures
        fields_bytes(seq![f]) == field_bytes(f),
{
    assert(seq![f].drop_first() =~= Seq::<(u32, WireVal)>::empty());
    assert(fields_bytes(seq![f].drop_first()) =~= Seq::<u8>::empty());
    assert(field_bytes(f) + Seq::<u8>::empty() =~= field_bytes(f));
}

/// Writes `value` as a varint at the end of `buf`.
///
/// Calls `prost::encoding::encode_varint`, which the contract takes to
/// append the LEB128 bytes of the value (at most ten) to the buffer.
#[verifier::external_body]
pub(crate) fn put_varint(value: u64, buf: &mut Vec<u8>)
    ensures
        final(buf)@ == old(buf)@ + varint_bytes(value as nat),
{
    prost::encoding::encode_varint(value, buf);
}

/// Writes the key of a field with number `tag` and wire type `k`.
///
/// Calls `prost::encoding::encode_key`, which the contract takes to append
/// the varint of `tag << 3 | wire type`.
#[verifier::external_body]
pub(crate) fn put_key(tag: u32, k: WireKind, buf: &mut Vec<u8>)
    requires
        1 <= tag <= MAX_FIELD_NUMBER,
    ensures
        final(buf)@ == old(buf)@ + key_bytes(tag, k),
{
    let wire_type = match k {
        WireKind::Varint => WireType::Varint,
        WireKind::Fixed64 => WireType::SixtyFourBit,
        WireKind::LengthDelimited => WireType::LengthDelimited,
        WireKind::StartGroup => WireType::StartGroup,
        WireKind::EndGroup => WireType::EndGroup,
        WireKind::Fixed32 => WireType::ThirtyTwoBit,
    };
    prost::encoding::encode_key(tag, wire_type, buf);
}

/// Reads a varint from the front of `input`, giving its value and the rest.
///
/// Calls `prost::encoding::decode_varint`, which the contract takes to read
/// LEB128 of at most ten bytes, the tenth at most 1, and to fail otherwise.
#[verifier::external_body]
pub(crate) fn take_varint(input: &[u8]) -> (r: Option<(u64, &[u8])>)
    ensures
        match varint_decode(input@) {
            None => r is None,
            Some((v, n)) => r matches Some((x, rest)) && x == v && rest@ == input@.skip(n as int),
        },
{
    let mut rest = input;
    match prost::encoding::decode_varint(&mut rest) {
        Ok(v) => Some((v, rest)),
        Err(_) => None,
    }
}

/// Skips the value of a field with number `tag` and wire type `k` at the
/// front of `input`, giving the rest, or the text of the error.
///
/// Calls `prost::encoding::skip_field` with a fresh `DecodeContext` (prost
/// keeps the constructor of a reduced one to itself, so a group inside an
/// embedded message may nest as deep as one at the top). The
/// contract names its outcome (`skip_field_result`, a function of the
/// arguments alone) and, as its source shows, states it for every wire type
/// but a group: a varint, four or eight bytes, or a length and that many
/// bytes, where they are there, and otherwise the error with its cause; an
/// end-group key is an error. What a group body must hold, and the cause
/// where it does not, are left to the name. The error's text is prost's
/// prefix and the cause, the error being fresh.
#[verifier::external_body]
pub(crate) fn take_skip(k: WireKind, tag: u32, input: &[u8]) -> (r: Result<&[u8], String>)
    ensures
        match skip_field_result(k, tag, input@) {
            Ok(n) => r matches Ok(rest) && n <= input@.len() && rest@ == input@.skip(n as int),
            Err(c) => r matches Err(m) && m@ == decode_error_prefix() + c,
        },
        k != WireKind::StartGroup ==> match value_decode(k, input@) {
            Some((_, n)) => r matches Ok(rest) && rest@ == input@.skip(n as int),
            None => r matches Err(m) && m@ == decode_error_prefix() + skip_error(k, input@),
        },
{
    let wire_type = match k {
        WireKind::Varint => WireType::Varint,
        WireKind::Fixed64 => WireType::SixtyFourBit,
        WireKind::LengthDelimited => WireType::LengthDelimited,
        WireKind::StartGroup => WireType::StartGroup,
        WireKind::EndGroup => WireType::EndGroup,
        WireKind::Fixed32 => WireType::ThirtyTwoBit,
    };
    let mut rest = input;
    match prost::encoding::skip_field(wire_type, tag, &mut rest, DecodeContext::default()) {
        Ok(()) => Ok(rest),
        Err(e) => Err(e.to_string()),
    }
}

/// Reads a `uint32` value of wire type `k` from the front of `input`.
///
/// Calls `prost::encoding::uint32::merge`, which, as its source shows,
/// requires a varint and keeps its low 32 bits, and otherwise fails with
/// the cause `uint32_merge_error`.
#[verifier::external_body]
pub(crate) fn merge_u32(k: WireKind, input: &[u8]) -> (r: Result<(u32, &[u8]), String>)
    ensures
        match (if k == WireKind::Varint { varint_decode(input@) } else { None }) {
            Some((v, n)) => r matches Ok((x, rest)) && x == v as u32 && rest@ == input@.skip(n as int),
            None => r matches Err(m) && m@ == decode_error_prefix() + uint32_merge_error(k, input@),
        },
{
    let wire_type = match k {
        WireKind::Varint => WireType::Varint,
        WireKind::Fixed64 => WireType::SixtyFourBit,
        WireKind::LengthDelimited => WireType::LengthDelimited,
        WireKind::StartGroup => WireType::StartGroup,
        WireKind::EndGroup => WireType::EndGroup,
        WireKind::Fixed32 => WireType::ThirtyTwoBit,
    };
    let mut value: u32 = 0;
    let mut rest = input;
    match prost::encoding::uint32::merge(wire_type, &mut value, &mut rest, DecodeContext::default()) {
        Ok(()) => Ok((value, rest)),
        Err(e) => Err(e.to_string()),
    }
}

/// Reads a `string` value of wire type `k` from the front of `input`.
///
/// Calls `prost::encoding::string::merge`, which, as its source shows,
/// requires a length and that many bytes of valid UTF-8, and otherwise
/// fails with the cause `string_merge_error`.
#[verifier::external_body]
pub(crate) fn merge_string(k: WireKind, input: &[u8]) -> (r: Result<(String, &[u8]), String>)
    ensures
        match (if k == WireKind::LengthDelimited { value_decode(k, input@) } else { None }) {
            Some((WireVal::Bytes(b), n)) => if valid_utf8(b) {
                r matches Ok((x, rest)) && x@ == decode_utf8(b) && rest@ == input@.skip(n as int)
            } else {
                r matches Err(m) && m@ == decode_error_prefix() + string_merge_error(k, input@)
            },
            _ => r matches Err(m) && m@ == decode_error_prefix() + string_merge_error(k, input@),
        },
{
    let wire_type = match k {
        WireKind::Varint => WireType::Varint,
        WireKind::Fixed64 => WireType::SixtyFourBit,
        WireKind::LengthDelimited => WireType::LengthDelimited,
        WireKind::StartGroup => WireType::StartGroup,
        WireKind::EndGroup => WireType::EndGroup,
        WireKind::Fixed32 => WireType::ThirtyTwoBit,
    };
    let mut value = String::new();
    let mut rest = input;
    match prost::encoding::string::merge(wire_type, &mut value, &mut rest, DecodeContext::default()) {
        Ok(()) => Ok((value, rest)),
        Err(e) => Err(e.to_string()),
    }
}

/// Reads a `bytes` value of wire type `k` from the front of `input`.
///
/// Calls `prost::encoding::bytes::merge`, which, as its source shows,
/// requires a length and that many bytes, and otherwise fails with the
/// cause `bytes_merge_error`.
#[verifier::external_body]
pub(crate) fn merge_bytes(k: WireKind, input: &[u8]) -> (r: Result<(Vec<u8>, &[u8]), String>)
    ensures
        match (if k == WireKind::LengthDelimited { value_decode(k, input@) } else { None }) {
            Some((WireVal::Bytes(b), n)) => r matches Ok((x, rest)) && x@ == b && rest@ == input@.skip(n as int),
            _ => r matches Err(m) && m@ == decode_error_prefix() + bytes_merge_error(k, input@),
        },
{
    let wire_type = match k {
        WireKind::Varint => WireType::Varint,
        WireKind::Fixed64 => WireType::SixtyFourBit,
        WireKind::LengthDelimited => WireType::LengthDelimited,
        WireKind::StartGroup => WireType::StartGroup,
        WireKind::EndGroup => WireType::EndGroup,
        WireKind::Fixed32 => WireType::ThirtyTwoBit,
    };
    let mut value: Vec<u8> = Vec::new();
    let mut rest = input;
    match prost::encoding::bytes::merge(wire_type, &mut value, &mut rest, DecodeContext::default()) {
        Ok(()) => Ok((value, rest)),
        Err(e) => Err(e.to_string()),
    }
}

/// Reads a field key from the front of `input`.
///
/// Calls `prost::encoding::decode_key`, which the contract takes to read a
/// varint key and refuse keys above `u32::MAX`, wire types 6 and 7, and
/// field number 0, with the cause `decode_key_error`.
#[verifier::external_body]
pub(crate) fn take_key(input: &[u8]) -> (r: Result<(u32, WireKind, &[u8]), String>)
    ensures
        match key_decode(input@) {
            None => r matches Err(m) && m@ == decode_error_prefix() + decode_key_error(input@),
            Some((tag, k, n)) => r matches Ok((t, k2, rest)) && t == tag && k2 == k && rest@
                == input@.skip(n as int),
        },
{
    let mut rest = input;
    match prost::encoding::decode_key(&mut rest) {
        Ok((tag, WireType::Varint)) => Ok((tag, WireKind::Varint, rest)),
        Ok((tag, WireType::SixtyFourBit)) => Ok((tag, WireKind::Fixed64, rest)),
        Ok((tag, WireType::LengthDelimited)) => Ok((tag, WireKind::LengthDelimited, rest)),
        Ok((tag, WireType::StartGroup)) => Ok((tag, WireKind::StartGroup, rest)),
        Ok((tag, WireType::EndGroup)) => Ok((tag, WireKind::EndGroup, rest)),
        Ok((tag, WireType::ThirtyTwoBit)) => Ok((tag, WireKind::Fixed32, rest)),
        Err(e) => Err(e.to_string()),
    }
}


/// A field value as the parser gives it.
#[derive(Debug)]
pub enum WireValue {
    Varint(u64),
    Fixed64(u64),
    Bytes(Vec<u8>),
    Fixed32(u32),
    Group,
}

impl View for WireValue {
    type V = WireVal;

    open spec fn view(&self) -> WireVal {
        match self {
            WireValue::Varint(x) => WireVal::Varint(*x),
            WireValue::Fixed64(x) => WireVal::Fixed64(*x),
            WireValue::Bytes(b) => WireVal::Bytes(b@),
            WireValue::Fixed32(x) => WireVal::Fixed32(*x),
            WireValue::Group => WireVal::Group,
        }
    }
}

/// One field of a message body: its number and its value.
#[derive(Debug)]
pub struct WireField {
    pub tag: u32,
    pub value: WireValue,
}

impl View for WireField {
    type V = (u32, WireVal);

    open spec fn view(&self) -> (u32, WireVal) {
        (self.tag, self.value@)
    }
}

pub open spec fn fields_view(v: Seq<WireField>) -> Seq<(u32, WireVal)> {
    v.map_values(|f: WireField| f@)
}

fn read_le32(input: &[u8]) -> (x: u32)
    requires
        input@.len() >= 4,
    ensures
        x == le_u32(input@),
{
    input[0] as u32 + 256 * (input[1] as u32) + 65536 * (input[2] as u32) + 16777216 * (
    input[3] as u32)
}

/// Reads the value of a field of wire type `k` from the front of `input`,
/// giving the value and the rest.
fn read_value(k: WireKind, input: &[u8]) -> (r: Option<(WireValue, &[u8])>)
    ensures
        match value_decode(k, input@) {
            None => r is None,
            Some((v, m)) => r matches Some((x, rest)) && x@ == v && rest@ == input@.skip(m as int),
        },
{
    match k {
        WireKind::Varint => match take_varint(input) {
            None => None,
            Some((v, rest)) => Some((WireValue::Varint(v), rest)),
        },
        WireKind::Fixed64 => {
            if input.len() >= 8 {
                let (head, rest) = input.split_at(8);
                let lo = read_le32(head);
                let (_, high) = head.split_at(4);
                let hi = read_le32(high);
                assert(high@ =~= input@.skip(4).take(4));
                let x = lo as u64 + 4294967296 * (hi as u64);
                assert(le_u32(high@) == le_u32(input@.skip(4)));
                Some((WireValue::Fixed64(x), rest))
            } else {
                None
            }
        },
        WireKind::LengthDelimited => match take_varint(input) {
            None => None,
            Some((len, rest)) => {
                proof {
                    lemma_leb_bounds(input@, 10);
                }
                if len <= rest.len() as u64 {
                    let (payload, rest2) = rest.split_at(len as usize);
                    let bytes = vstd::slice::slice_to_vec(payload);
                    assert(rest2@ =~= input@.skip(input@.len() - rest@.len() + len));
                    assert(payload@ =~= input@.subrange(
                        input@.len() - rest@.len(),
                        input@.len() - rest@.len() + len,
                    ));
                    Some((WireValue::Bytes(bytes), rest2))
                } else {
                    None
                }
            },
        },
        WireKind::Fixed32 => {
            if input.len() >= 4 {
                let x = read_le32(input);
                let (_, rest) = input.split_at(4);
                Some((WireValue::Fixed32(x), rest))
            } else {
                None
            }
        },
        _ => None,
    }
}

/// Splits a message body into its fields, in order; `None` where the body
/// is malformed.
#[verifier::spinoff_prover]
#[verifier::rlimit(40)]
pub fn parse_fields(input: &[u8]) -> (r: Option<Vec<WireField>>)
    ensures
        match parse_fields_spec(input@) {
            None => r is None,
            Some(fs) => r matches Some(v) && fields_view(v@) == fs,
        },
{
    let mut rest = input;
    let mut out: Vec<WireField> = Vec::new();
    assert(fields_view(out@) =~= Seq::<(u32, WireVal)>::empty());
    while rest.len() > 0
        invariant
            parse_fields_spec(input@) == match parse_fields_spec(rest@) {
                None => None::<Seq<(u32, WireVal)>>,
                Some(t) => Some(fields_view(out@) + t),
            },
        decreases rest@.len(),
    {
        proof {
            lemma_key_bounds(rest@);
        }
        match take_key(rest) {
            Err(_) => {
                return None;
            },
            Ok((tag, k, r1)) => {
                proof {
                    lemma_value_bounds(k, r1@);
                }
                let value = if k == WireKind::StartGroup {
                    match take_skip(k, tag, r1) {
                        Err(_) => None,
                        Ok(r2) => Some((WireValue::Group, r2)),
                    }
                } else {
                    read_value(k, r1)
                };
                match value {
                    None => {
                        return None;
                    },
                    Some((v, r2)) => {
                        let ghost old_out = out@;
                        let ghost n = rest@.len() - r1@.len();
                        let ghost m = r1@.len() - r2@.len();
                        assert(r2@ =~= rest@.skip(n + m));
                        out.push(WireField { tag, value: v });
                        assert(fields_view(out@) =~= fields_view(old_out) + seq![(tag, v@)]);
                        proof {
                            if let Some(t) = parse_fields_spec(r2@) {
                                assert(fields_view(out@) + t =~= fields_view(old_out) + (seq![(tag, v@)] + t));
                            }
                        }
                        rest = r2;
                    },
                }
            },
        }
    }
    assert(parse_fields_spec(rest@) == Some(Seq::<(u32, WireVal)>::empty()));
    assert(fields_view(out@) + Seq::<(u32, WireVal)>::empty() =~= fields_view(out@));
    Some(out)
}

/// Appends a length-delimited field.
pub(crate) fn put_bytes_field(tag: u32, bytes: &[u8], buf: &mut Vec<u8>)
    requires
        1 <= tag <= MAX_FIELD_NUMBER,
    ensures
        final(buf)@ == old(buf)@ + field_bytes((tag, WireVal::Bytes(bytes@))),
{
    put_key(tag, WireKind::LengthDelimited, buf);
    put_varint(bytes.len() as u64, buf);
    buf.extend_from_slice(bytes);
    assert(final(buf)@ =~= old(buf)@ + field_bytes((tag, WireVal::Bytes(bytes@))));
}

/// Appends a varint field.
pub(crate) fn put_varint_field(tag: u32, value: u64, buf: &mut Vec<u8>)
    requires
        1 <= tag <= MAX_FIELD_NUMBER,
    ensures
        final(buf)@ == old(buf)@ + field_bytes((tag, WireVal::Varint(value))),
{
    put_key(tag, WireKind::Varint, buf);
    put_varint(value, buf);
    assert(final(buf)@ =~= old(buf)@ + field_bytes((tag, WireVal::Varint(value))));
}

/// Appends a four-byte field, least significant byte first.
pub(crate) fn put_fixed32_field(tag: u32, value: u32, buf: &mut Vec<u8>)
    requires
        1 <= tag <= MAX_FIELD_NUMBER,
    ensures
        final(buf)@ == old(buf)@ + field_bytes((tag, WireVal::Fixed32(value))),
{
    put_key(tag, WireKind::Fixed32, buf);
    buf.push((value % 256) as u8);
    buf.push(((value / 256) % 256) as u8);
    buf.push(((value / 65536) % 256) as u8);
    buf.push(((value / 16777216) % 256) as u8);
    assert(final(buf)@ =~= old(buf)@ + field_bytes((tag, WireVal::Fixed32(value))));
}

} // verus!
