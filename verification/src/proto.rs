//! Protobuf wire format: the encoders, and the model of a message that they are specified by.
//!
//! A message is a sequence of [`WireField`]s. Every encoder appends to its buffer the bytes that
//! [`field_bytes`] gives to one such field, or nothing where the field holds its proto3 default.

use vstd::prelude::*;

verus! {

/// Wire type of a varint payload.
pub const WIRE_TYPE_VARINT: u8 = 0;

/// Wire type of an eight byte little-endian payload.
pub const WIRE_TYPE_FIXED64: u8 = 1;

/// Wire type of a length-prefixed payload.
pub const WIRE_TYPE_LENGTH_DELIMITED: u8 = 2;

// --- Model ---

/// What a field carries.
#[verifier::ext_equal]
pub enum Payload {
    /// An integer in base 128.
    Varint(u64),
    /// Eight bytes, least significant first.
    Fixed64(u64),
    /// A string, a byte string or a nested message, behind its length.
    Delimited(Seq<u8>),
}

/// One field of a message: its number and what it carries.
#[verifier::ext_equal]
pub struct WireField {
    pub number: u32,
    pub payload: Payload,
}

/// The base-128 digits of `val`, least significant first, the top bit set on all but the last.
pub open spec fn varint_bytes(val: nat) -> Seq<u8>
    decreases val,
{
    if val < 0x80 {
        seq![val as u8]
    } else {
        seq![(val % 0x80 + 0x80) as u8] + varint_bytes(val / 0x80)
    }
}

/// The `count` lowest base-256 digits of `val`, least significant first.
pub open spec fn little_endian(val: nat, count: nat) -> Seq<u8>
    decreases count,
{
    if count == 0 {
        Seq::empty()
    } else {
        seq![(val % 0x100) as u8] + little_endian(val / 0x100, (count - 1) as nat)
    }
}

/// The tag that announces field `number` with the given wire type.
pub open spec fn tag_value(number: nat, wire_type: nat) -> nat {
    number * 8 + wire_type
}

/// The wire type of a payload.
pub open spec fn payload_wire_type(payload: Payload) -> u8 {
    match payload {
        Payload::Varint(_) => WIRE_TYPE_VARINT,
        Payload::Fixed64(_) => WIRE_TYPE_FIXED64,
        Payload::Delimited(_) => WIRE_TYPE_LENGTH_DELIMITED,
    }
}

/// The bytes of a payload.
pub open spec fn payload_bytes(payload: Payload) -> Seq<u8> {
    match payload {
        Payload::Varint(val) => varint_bytes(val as nat),
        Payload::Fixed64(val) => little_endian(val as nat, 8),
        Payload::Delimited(data) => varint_bytes(data.len()) + data,
    }
}

/// The bytes of a field: tag, then payload.
pub open spec fn field_bytes(field: WireField) -> Seq<u8> {
    varint_bytes(tag_value(field.number as nat, payload_wire_type(field.payload) as nat))
        + payload_bytes(field.payload)
}

/// The bytes of a message: its fields, one after the other.
pub open spec fn message_bytes(fields: Seq<WireField>) -> Seq<u8>
    decreases fields.len(),
{
    if fields.len() == 0 {
        Seq::empty()
    } else {
        message_bytes(fields.drop_last()) + field_bytes(fields.last())
    }
}

/// A varint field, always present.
pub open spec fn varint_always(number: u32, val: u64) -> Seq<WireField> {
    seq![WireField { number, payload: Payload::Varint(val) }]
}

/// A varint field, absent when zero.
pub open spec fn varint_opt(number: u32, val: u64) -> Seq<WireField> {
    if val == 0 {
        Seq::empty()
    } else {
        varint_always(number, val)
    }
}

/// A fixed64 field, always present.
pub open spec fn fixed64_always(number: u32, val: u64) -> Seq<WireField> {
    seq![WireField { number, payload: Payload::Fixed64(val) }]
}

/// A fixed64 field, absent when zero.
pub open spec fn fixed64_opt(number: u32, val: u64) -> Seq<WireField> {
    if val == 0 {
        Seq::empty()
    } else {
        fixed64_always(number, val)
    }
}

/// A length-delimited field, absent when there is nothing to carry.
pub open spec fn delimited_opt(number: u32, data: Seq<u8>) -> Seq<WireField> {
    if data.len() == 0 {
        Seq::empty()
    } else {
        seq![WireField { number, payload: Payload::Delimited(data) }]
    }
}

/// A string field: its UTF-8 bytes, absent when empty.
pub open spec fn string_opt(number: u32, text: Seq<char>) -> Seq<WireField> {
    delimited_opt(number, vstd::utf8::encode_utf8(text))
}

/// A nested message field, absent when the nested message has no bytes.
pub open spec fn message_opt(number: u32, fields: Seq<WireField>) -> Seq<WireField> {
    delimited_opt(number, message_bytes(fields))
}

/// A repeated message field: one nested message for each item, in order, absent when it has no
/// bytes.
pub open spec fn repeated<T>(
    number: u32,
    items: Seq<T>,
    fields: spec_fn(T) -> Seq<WireField>,
) -> Seq<WireField>
    decreases items.len(),
{
    if items.len() == 0 {
        Seq::empty()
    } else {
        repeated(number, items.drop_last(), fields) + message_opt(number, fields(items.last()))
    }
}

// --- Encoders ---

/// Encode a varint (LEB128) into the buffer.
pub fn encode_varint(buf: &mut Vec<u8>, val: u64)
    ensures
        final(buf)@ == old(buf)@ + varint_bytes(val as nat),
{
    let mut rest: u64 = val;
    while rest >= 0x80
        invariant
            buf@ + varint_bytes(rest as nat) == old(buf)@ + varint_bytes(val as nat),
        decreases rest,
    {
        let low: u8 = (rest % 0x80) as u8 + 0x80;
        let ghost before = buf@;
        buf.push(low);
        assert(before + (seq![low] + varint_bytes((rest / 0x80) as nat)) == buf@ + varint_bytes(
            (rest / 0x80) as nat,
        ));
        rest = rest / 0x80;
    }
    buf.push(rest as u8);
    assert(buf@ == old(buf)@ + varint_bytes(val as nat));
}

/// Encode a field tag (field number + wire type).
fn encode_tag(buf: &mut Vec<u8>, field_number: u32, wire_type: u8)
    requires
        wire_type < 8,
    ensures
        final(buf)@ == old(buf)@ + varint_bytes(tag_value(field_number as nat, wire_type as nat)),
{
    encode_varint(buf, (field_number as u64) * 8 + wire_type as u64);
}

/// Encode a varint field (tag + varint value).
/// Follows proto3 convention: skips the field if val == 0.
pub fn encode_varint_field(buf: &mut Vec<u8>, field: u32, val: u64)
    ensures
        final(buf)@ == old(buf)@ + message_bytes(varint_opt(field, val)),
{
    if val == 0 {
        return;
    }
    encode_varint_field_always(buf, field, val);
}

/// Encode a varint field unconditionally, even if val == 0.
/// Use for fields where zero is a meaningful value (e.g. bool false, int 0).
pub fn encode_varint_field_always(buf: &mut Vec<u8>, field: u32, val: u64)
    ensures
        final(buf)@ == old(buf)@ + message_bytes(varint_always(field, val)),
{
    encode_tag(buf, field, WIRE_TYPE_VARINT);
    encode_varint(buf, val);
    proof {
        lemma_message_of_one(WireField { number: field, payload: Payload::Varint(val) });
    }
}

/// Encode a string field (tag + length + UTF-8 bytes).
/// Skips the field if the string is empty (proto3 default).
pub fn encode_string_field(buf: &mut Vec<u8>, field: u32, s: &str)
    ensures
        final(buf)@ == old(buf)@ + message_bytes(string_opt(field, s@)),
{
    encode_bytes_field(buf, field, s.as_bytes());
}

/// Encode a bytes field (tag + length + raw bytes).
/// Skips the field if the slice is empty (proto3 default).
pub fn encode_bytes_field(buf: &mut Vec<u8>, field: u32, data: &[u8])
    ensures
        final(buf)@ == old(buf)@ + message_bytes(delimited_opt(field, data@)),
{
    if data.is_empty() {
        return;
    }
    encode_tag(buf, field, WIRE_TYPE_LENGTH_DELIMITED);
    encode_varint(buf, data.len() as u64);
    let ghost before = buf@;
    buf.extend_from_slice(data);
    proof {
        assert(buf@ == before + data@);
        lemma_message_of_one(WireField { number: field, payload: Payload::Delimited(data@) });
    }
}

/// Append the eight bytes of `val`, least significant first.
pub(crate) fn encode_little_endian(buf: &mut Vec<u8>, val: u64)
    ensures
        final(buf)@ == old(buf)@ + little_endian(val as nat, 8),
{
    let mut rest: u64 = val;
    let mut left: u8 = 8;
    while left > 0
        invariant
            left <= 8,
            buf@ + little_endian(rest as nat, left as nat) == old(buf)@ + little_endian(
                val as nat,
                8,
            ),
        decreases left,
    {
        let low: u8 = (rest % 0x100) as u8;
        let ghost before = buf@;
        buf.push(low);
        assert(before + (seq![low] + little_endian((rest / 0x100) as nat, (left - 1) as nat))
            == buf@ + little_endian((rest / 0x100) as nat, (left - 1) as nat));
        rest = rest / 0x100;
        left = left - 1;
    }
    assert(buf@ == old(buf)@ + little_endian(val as nat, 8));
}

/// Encode a fixed64 field (tag + 8 bytes little-endian).
/// Skips the field if val == 0 (proto3 default).
pub fn encode_fixed64_field(buf: &mut Vec<u8>, field: u32, val: u64)
    ensures
        final(buf)@ == old(buf)@ + message_bytes(fixed64_opt(field, val)),
{
    if val == 0 {
        return;
    }
    encode_fixed64_field_always(buf, field, val);
}

/// Encode a fixed64 field unconditionally, even if val == 0.
pub fn encode_fixed64_field_always(buf: &mut Vec<u8>, field: u32, val: u64)
    ensures
        final(buf)@ == old(buf)@ + message_bytes(fixed64_always(field, val)),
{
    encode_tag(buf, field, WIRE_TYPE_FIXED64);
    encode_little_endian(buf, val);
    proof {
        lemma_message_of_one(WireField { number: field, payload: Payload::Fixed64(val) });
    }
}

/// Encode a nested message field (tag + length + message bytes).
/// Skips the field if the message is empty.
pub fn encode_message_field(buf: &mut Vec<u8>, field: u32, msg: &[u8])
    ensures
        final(buf)@ == old(buf)@ + message_bytes(delimited_opt(field, msg@)),
{
    encode_bytes_field(buf, field, msg);
}

/// Encode a nested message field whose bytes `write` appends to the end of the buffer.
/// Skips the field if `write` appends nothing.
pub fn encode_message_field_in_place<F: FnOnce(&mut Vec<u8>)>(
    buf: &mut Vec<u8>,
    field: u32,
    write: F,
)
    requires
        forall|b: &mut Vec<u8>| b@ == buf@ ==> #[trigger] call_requires(write, (b,)),
        forall|b: &mut Vec<u8>|
            b@ == buf@ && #[trigger] call_ensures(write, (b,), ()) ==> b@.is_prefix_of(final(b)@),
    ensures
        exists|b: &mut Vec<u8>| #[trigger]
            call_ensures(write, (b,), ()) && b@ == old(buf)@ && final(buf)@ == old(buf)@
                + message_bytes(delimited_opt(field, final(b)@.skip(b@.len() as int))),
{
    let start: usize = buf.len();
    write(buf);
    let ghost written = buf@;
    let msg = buf.split_off(start);
    assert(msg@ == written.skip(start as int));
    assert(buf@ == old(buf)@);
    encode_message_field(buf, field, msg.as_slice());
}

// --- Facts about the model ---

/// A message of one field is that field's bytes.
pub proof fn lemma_message_of_one(field: WireField)
    ensures
        message_bytes(seq![field]) == field_bytes(field),
{
    reveal_with_fuel(message_bytes, 2);
    assert(seq![field].drop_last() == Seq::<WireField>::empty());
    assert(message_bytes(seq![field]) == field_bytes(field));
}

} // verus!
