//! Reading the wire format back: a model of a protobuf decoder and the laws that tie it to the
//! encoders of [`crate::proto`].

use vstd::prelude::*;

use crate::proto::{
    delimited_opt, field_bytes, fixed64_always, fixed64_opt, lemma_message_of_one, little_endian,
    message_bytes, payload_bytes, payload_wire_type, tag_value, varint_always, varint_bytes,
    varint_opt, Payload, WireField,
};

verus! {

/// Read a varint from the front of `bytes`: its value and how many bytes it took.
pub open spec fn decode_varint(bytes: Seq<u8>) -> Option<(nat, nat)>
    decreases bytes.len(),
{
    if bytes.len() == 0 {
        None
    } else if bytes[0] < 0x80 {
        Some((bytes[0] as nat, 1))
    } else {
        match decode_varint(bytes.skip(1)) {
            Some((high, used)) => Some(((bytes[0] - 0x80) as nat + 0x80 * high, used + 1)),
            None => None,
        }
    }
}

/// The number that `bytes` stand for, least significant first.
pub open spec fn from_little_endian(bytes: Seq<u8>) -> nat
    decreases bytes.len(),
{
    if bytes.len() == 0 {
        0
    } else {
        bytes[0] as nat + 0x100 * from_little_endian(bytes.skip(1))
    }
}

/// Read a payload of the given wire type from the front of `bytes`.
pub open spec fn decode_payload(wire_type: nat, bytes: Seq<u8>) -> Option<(Payload, nat)> {
    if wire_type == 0 {
        match decode_varint(bytes) {
            Some((val, used)) => if val <= u64::MAX {
                Some((Payload::Varint(val as u64), used))
            } else {
                None
            },
            None => None,
        }
    } else if wire_type == 1 {
        if bytes.len() < 8 {
            None
        } else {
            Some((Payload::Fixed64(from_little_endian(bytes.take(8)) as u64), 8))
        }
    } else if wire_type == 2 {
        match decode_varint(bytes) {
            Some((len, used)) => if used + len <= bytes.len() {
                Some(
                    (
                        Payload::Delimited(bytes.subrange(used as int, (used + len) as int)),
                        used + len,
                    ),
                )
            } else {
                None
            },
            None => None,
        }
    } else {
        None
    }
}

/// Read a field from the front of `bytes`: the field and how many bytes it took.
pub open spec fn decode_field(bytes: Seq<u8>) -> Option<(WireField, nat)> {
    match decode_varint(bytes) {
        Some((tag, tag_len)) => if tag / 8 <= u32::MAX {
            match decode_payload(tag % 8, bytes.skip(tag_len as int)) {
                Some((payload, used)) => Some(
                    (WireField { number: (tag / 8) as u32, payload }, tag_len + used),
                ),
                None => None,
            }
        } else {
            None
        },
        None => None,
    }
}

/// Read a whole message.
pub open spec fn decode_message(bytes: Seq<u8>) -> Option<Seq<WireField>>
    decreases bytes.len(),
{
    if bytes.len() == 0 {
        Some(Seq::empty())
    } else {
        match decode_field(bytes) {
            Some((field, used)) => if 0 < used <= bytes.len() {
                match decode_message(bytes.skip(used as int)) {
                    Some(rest) => Some(seq![field] + rest),
                    None => None,
                }
            } else {
                None
            },
            None => None,
        }
    }
}

/// A varint takes at least one byte.
pub proof fn lemma_varint_not_empty(val: nat)
    ensures
        varint_bytes(val).len() > 0,
{
}

/// Reading a varint gives back what was written, whatever follows it.
pub proof fn law_varint_round_trip(val: nat, rest: Seq<u8>)
    ensures
        decode_varint(varint_bytes(val) + rest) == Some((val, varint_bytes(val).len())),
    decreases val,
{
    let bytes = varint_bytes(val) + rest;
    if val >= 0x80 {
        law_varint_round_trip(val / 0x80, rest);
        assert(bytes.skip(1) == varint_bytes(val / 0x80) + rest);
    }
}

/// A 64-bit value takes between one and ten bytes, seven bits to the byte.
pub proof fn law_varint_length(val: u64)
    ensures
        1 <= varint_bytes(val as nat).len() <= 10,
        val < 0x80 <==> varint_bytes(val as nat).len() == 1,
{
    reveal_with_fuel(varint_bytes, 10);
}

/// The continuation bit is set on every byte of a varint but the last.
pub proof fn law_varint_continuation(val: nat)
    ensures
        forall|i: int|
            0 <= i < varint_bytes(val).len() ==> (#[trigger] varint_bytes(val)[i] >= 0x80 <==> i
                < varint_bytes(val).len() - 1),
    decreases val,
{
    lemma_varint_not_empty(val);
    if val >= 0x80 {
        law_varint_continuation(val / 0x80);
        lemma_varint_not_empty(val / 0x80);
        let tail = varint_bytes(val / 0x80);
        assert forall|i: int| 0 <= i < varint_bytes(val).len() implies (
        #[trigger] varint_bytes(val)[i] >= 0x80 <==> i < varint_bytes(val).len() - 1) by {
            if i > 0 {
                assert(varint_bytes(val)[i] == tail[i - 1]);
            }
        }
    }
}

/// A tag gives back the field number and the wire type.
pub proof fn law_tag_round_trip(number: u32, wire_type: u8)
    requires
        wire_type < 8,
    ensures
        tag_value(number as nat, wire_type as nat) / 8 == number,
        tag_value(number as nat, wire_type as nat) % 8 == wire_type,
{
}

proof fn lemma_little_endian_len(val: nat, count: nat)
    ensures
        little_endian(val, count).len() == count,
    decreases count,
{
    if count > 0 {
        lemma_little_endian_len(val / 0x100, (count - 1) as nat);
    }
}

proof fn lemma_little_endian_step(val: nat, count: nat)
    requires
        count > 0,
    ensures
        from_little_endian(little_endian(val, count)) == val % 0x100 + 0x100 * from_little_endian(
            little_endian(val / 0x100, (count - 1) as nat),
        ),
{
    let bytes = little_endian(val, count);
    assert(bytes.skip(1) == little_endian(val / 0x100, (count - 1) as nat));
}

/// Eight little-endian bytes give back the value they were made of.
pub proof fn law_fixed64_round_trip(val: u64)
    ensures
        little_endian(val as nat, 8).len() == 8,
        from_little_endian(little_endian(val as nat, 8)) == val,
{
    lemma_little_endian_len(val as nat, 8);
    let v0 = val as nat;
    let v1 = v0 / 0x100;
    let v2 = v1 / 0x100;
    let v3 = v2 / 0x100;
    let v4 = v3 / 0x100;
    let v5 = v4 / 0x100;
    let v6 = v5 / 0x100;
    let v7 = v6 / 0x100;
    lemma_little_endian_step(v0, 8);
    lemma_little_endian_step(v1, 7);
    lemma_little_endian_step(v2, 6);
    lemma_little_endian_step(v3, 5);
    lemma_little_endian_step(v4, 4);
    lemma_little_endian_step(v5, 3);
    lemma_little_endian_step(v6, 2);
    lemma_little_endian_step(v7, 1);
    lemma_little_endian_len(v7 / 0x100, 0);
}

/// Reading a payload gives back what was written, whatever follows it.
pub proof fn law_payload_round_trip(payload: Payload, rest: Seq<u8>)
    ensures
        decode_payload(payload_wire_type(payload) as nat, payload_bytes(payload) + rest) == Some(
            (payload, payload_bytes(payload).len()),
        ),
{
    let bytes = payload_bytes(payload) + rest;
    match payload {
        Payload::Varint(val) => {
            law_varint_round_trip(val as nat, rest);
        },
        Payload::Fixed64(val) => {
            law_fixed64_round_trip(val);
            assert(bytes.take(8) == little_endian(val as nat, 8));
        },
        Payload::Delimited(data) => {
            let prefix = varint_bytes(data.len());
            law_varint_round_trip(data.len(), data + rest);
            assert(bytes == prefix + (data + rest));
            assert(bytes.subrange(prefix.len() as int, (prefix.len() + data.len()) as int) == data);
        },
    }
}

/// Reading a field gives back its number and what it carries, whatever follows it.
pub proof fn law_field_round_trip(field: WireField, rest: Seq<u8>)
    ensures
        decode_field(field_bytes(field) + rest) == Some((field, field_bytes(field).len())),
{
    let wire_type = payload_wire_type(field.payload);
    let tag = tag_value(field.number as nat, wire_type as nat);
    let tail = payload_bytes(field.payload) + rest;
    law_tag_round_trip(field.number, wire_type);
    law_varint_round_trip(tag, tail);
    law_payload_round_trip(field.payload, rest);
    assert(field_bytes(field) + rest == varint_bytes(tag) + tail);
    assert((varint_bytes(tag) + tail).skip(varint_bytes(tag).len() as int) == tail);
}

/// The bytes of two messages one after the other are those of the message with the fields of both:
/// encoded requests can be batched by concatenation.
pub proof fn law_message_concat(first: Seq<WireField>, second: Seq<WireField>)
    ensures
        message_bytes(first + second) == message_bytes(first) + message_bytes(second),
    decreases second.len(),
{
    if second.len() == 0 {
        assert(first + second == first);
    } else {
        assert((first + second).drop_last() == first + second.drop_last());
        assert((first + second).last() == second.last());
        law_message_concat(first, second.drop_last());
        assert(message_bytes(first + second) == message_bytes(first) + message_bytes(second));
    }
}

/// Writing `next` behind `fields` is writing them as one message.
pub proof fn lemma_append_message(start: Seq<u8>, fields: Seq<WireField>, next: Seq<WireField>)
    ensures
        start + message_bytes(fields) + message_bytes(next) == start + message_bytes(fields + next),
{
    law_message_concat(fields, next);
    assert(start + message_bytes(fields) + message_bytes(next) =~= start + (message_bytes(fields)
        + message_bytes(next)));
}

proof fn lemma_message_front(fields: Seq<WireField>)
    requires
        fields.len() > 0,
    ensures
        message_bytes(fields) == field_bytes(fields[0]) + message_bytes(fields.skip(1)),
{
    law_message_concat(seq![fields[0]], fields.skip(1));
    lemma_message_of_one(fields[0]);
    assert(seq![fields[0]] + fields.skip(1) == fields);
}

/// Every message is read back field by field, as it was written.
pub proof fn law_message_round_trip(fields: Seq<WireField>)
    ensures
        decode_message(message_bytes(fields)) == Some(fields),
    decreases fields.len(),
{
    if fields.len() > 0 {
        let head = field_bytes(fields[0]);
        let rest = message_bytes(fields.skip(1));
        lemma_message_front(fields);
        law_field_round_trip(fields[0], rest);
        law_message_round_trip(fields.skip(1));
        lemma_varint_not_empty(
            tag_value(fields[0].number as nat, payload_wire_type(fields[0].payload) as nat),
        );
        assert((head + rest).skip(head.len() as int) == rest);
        assert(seq![fields[0]] + fields.skip(1) == fields);
    }
}

/// A field is absent exactly where it holds its default: zero, or nothing. Otherwise it is there
/// once, under its number and with what it holds. One that is always written is there even then.
pub proof fn law_optional_fields(number: u32, val: u64, data: Seq<u8>)
    ensures
        varint_opt(number, 0).len() == 0,
        val != 0 ==> varint_opt(number, val) == seq![
            WireField { number, payload: Payload::Varint(val) },
        ],
        varint_always(number, val) == seq![WireField { number, payload: Payload::Varint(val) }],
        fixed64_opt(number, 0).len() == 0,
        val != 0 ==> fixed64_opt(number, val) == seq![
            WireField { number, payload: Payload::Fixed64(val) },
        ],
        fixed64_always(number, val) == seq![WireField { number, payload: Payload::Fixed64(val) }],
        data.len() == 0 ==> delimited_opt(number, data).len() == 0,
        data.len() > 0 ==> delimited_opt(number, data) == seq![
            WireField { number, payload: Payload::Delimited(data) },
        ],
{
}

/// A field on the wire begins with its number in steps of eight and its kind in the rest: zero for
/// an integer in base 128, one for eight bytes, two for bytes behind their length.
pub proof fn law_field_layout(number: u32, val: u64, data: Seq<u8>)
    ensures
        field_bytes(WireField { number, payload: Payload::Varint(val) }) == varint_bytes(
            (number * 8) as nat,
        ) + varint_bytes(val as nat),
        field_bytes(WireField { number, payload: Payload::Fixed64(val) }) == varint_bytes(
            (number * 8 + 1) as nat,
        ) + little_endian(val as nat, 8),
        field_bytes(WireField { number, payload: Payload::Delimited(data) }) == varint_bytes(
            (number * 8 + 2) as nat,
        ) + (varint_bytes(data.len()) + data),
{
}

/// The digits of a varint hold seven bits each, the low ones first; the top bit says that more
/// follow.
pub proof fn law_varint_digits(val: nat)
    ensures
        val < 0x80 ==> varint_bytes(val) == seq![val as u8],
        val >= 0x80 ==> varint_bytes(val)[0] == val % 0x80 + 0x80 && varint_bytes(val).skip(1)
            == varint_bytes(val / 0x80),
{
    if val >= 0x80 {
        assert(varint_bytes(val).skip(1) =~= varint_bytes(val / 0x80));
    }
}

/// Eight byte numbers have their low byte first.
pub proof fn law_low_byte_first(val: nat, count: nat)
    requires
        count > 0,
    ensures
        little_endian(val, count)[0] == val % 0x100,
        little_endian(val, count).skip(1) == little_endian(val / 0x100, (count - 1) as nat),
{
    assert(little_endian(val, count).skip(1) =~= little_endian(val / 0x100, (count - 1) as nat));
}

} // verus!
