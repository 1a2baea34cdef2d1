//! Reading the fields of a decoded message, as a receiver does: a field that is absent reads as its
//! proto3 default, and of one that occurs more than once the last counts.

use vstd::prelude::*;
use vstd::utf8::{decode_utf8, encode_utf8};

use crate::proto::{
    delimited_opt, field_bytes, fixed64_always, fixed64_opt, message_bytes, message_opt,
    payload_wire_type, repeated, tag_value, varint_always, varint_opt, Payload, WireField,
};
use crate::wire::{decode_message, law_message_round_trip, lemma_varint_not_empty};

verus! {

/// What the fields with the number carry, in order.
pub open spec fn picked(fields: Seq<WireField>, number: u32) -> Seq<Payload>
    decreases fields.len(),
{
    if fields.len() == 0 {
        Seq::empty()
    } else if fields.last().number == number {
        picked(fields.drop_last(), number).push(fields.last().payload)
    } else {
        picked(fields.drop_last(), number)
    }
}

/// Whether the field is present.
pub open spec fn has_field(fields: Seq<WireField>, number: u32) -> bool {
    picked(fields, number).len() > 0
}

/// The bytes of a length-delimited payload.
pub open spec fn payload_data(payload: Payload) -> Seq<u8> {
    match payload {
        Payload::Delimited(data) => data,
        _ => Seq::empty(),
    }
}

/// A varint field.
pub open spec fn read_varint(fields: Seq<WireField>, number: u32) -> u64 {
    if has_field(fields, number) {
        match picked(fields, number).last() {
            Payload::Varint(val) => val,
            _ => 0,
        }
    } else {
        0
    }
}

/// A fixed64 field.
pub open spec fn read_fixed64(fields: Seq<WireField>, number: u32) -> u64 {
    if has_field(fields, number) {
        match picked(fields, number).last() {
            Payload::Fixed64(val) => val,
            _ => 0,
        }
    } else {
        0
    }
}

/// A bytes field.
pub open spec fn read_bytes(fields: Seq<WireField>, number: u32) -> Seq<u8> {
    if has_field(fields, number) {
        payload_data(picked(fields, number).last())
    } else {
        Seq::empty()
    }
}

/// A string field.
pub open spec fn read_string(fields: Seq<WireField>, number: u32) -> Seq<char> {
    decode_utf8(read_bytes(fields, number))
}

/// The fields of an encoded message; none where the bytes are no message.
pub open spec fn fields_of(bytes: Seq<u8>) -> Seq<WireField> {
    match decode_message(bytes) {
        Some(fields) => fields,
        None => Seq::empty(),
    }
}

/// A nested message field.
pub open spec fn read_message(fields: Seq<WireField>, number: u32) -> Seq<WireField> {
    fields_of(read_bytes(fields, number))
}

/// A repeated message field, each message read by `read`.
pub open spec fn read_repeated<T>(
    fields: Seq<WireField>,
    number: u32,
    read: spec_fn(Seq<WireField>) -> T,
) -> Seq<T> {
    picked(fields, number).map_values(|p: Payload| read(fields_of(payload_data(p))))
}

// --- Facts ---

/// Reading a message that was written gives its fields.
pub proof fn lemma_fields_of(fields: Seq<WireField>)
    ensures
        fields_of(message_bytes(fields)) == fields,
{
    law_message_round_trip(fields);
}

/// Reading a text that was written gives the text.
pub proof fn lemma_text(text: Seq<char>)
    ensures
        decode_utf8(encode_utf8(text)) == text,
{
    vstd::utf8::encode_utf8_decode_utf8(text);
}

/// A message with a field has bytes.
pub proof fn lemma_message_not_empty(fields: Seq<WireField>)
    requires
        fields.len() > 0,
    ensures
        message_bytes(fields).len() > 0,
{
    let last = fields.last();
    lemma_varint_not_empty(
        tag_value(
            last.number as nat,
            payload_wire_type(last.payload) as nat,
        ),
    );
    assert(field_bytes(last).len() > 0);
}

/// Fields are picked from the parts of a message one after the other.
pub proof fn lemma_picked_concat(a: Seq<WireField>, b: Seq<WireField>)
    ensures
        forall|n: u32| #[trigger] picked(a + b, n) == picked(a, n) + picked(b, n),
    decreases b.len(),
{
    if b.len() == 0 {
        assert(a + b == a);
        assert forall|n: u32| #[trigger] picked(a + b, n) == picked(a, n) + picked(b, n) by {
            assert(picked(a, n) + picked(b, n) =~= picked(a, n));
        }
    } else {
        lemma_picked_concat(a, b.drop_last());
        assert((a + b).drop_last() =~= a + b.drop_last());
        assert forall|n: u32| #[trigger] picked(a + b, n) == picked(a, n) + picked(b, n) by {
            assert(picked(a + b.drop_last(), n) == picked(a, n) + picked(b.drop_last(), n));
            assert(picked(a + b, n) =~= picked(a, n) + picked(b, n));
        }
    }
}

/// What is picked from a single field.
pub proof fn lemma_picked_one(number: u32, payload: Payload)
    ensures
        forall|n: u32| #[trigger]
            picked(seq![WireField { number, payload }], n) == if n == number {
                seq![payload]
            } else {
                Seq::empty()
            },
{
    let one = seq![WireField { number, payload }];
    assert(one.drop_last() =~= Seq::<WireField>::empty());
    assert forall|n: u32| #[trigger] picked(one, n) == if n == number {
        seq![payload]
    } else {
        Seq::empty()
    } by {
        reveal_with_fuel(picked, 2);
        assert(picked(one.drop_last(), n) =~= Seq::<Payload>::empty());
        if n == number {
            assert(picked(one, n) =~= seq![payload]);
        }
    }
}

/// What is picked from a varint field.
pub proof fn lemma_picked_varint(number: u32, val: u64)
    ensures
        forall|n: u32| #[trigger]
            picked(varint_always(number, val), n) == if n == number {
                seq![Payload::Varint(val)]
            } else {
                Seq::empty()
            },
        forall|n: u32| #[trigger]
            picked(varint_opt(number, val), n) == if n == number && val != 0 {
                seq![Payload::Varint(val)]
            } else {
                Seq::empty()
            },
{
    lemma_picked_one(number, Payload::Varint(val));
}

/// What is picked from a fixed64 field.
pub proof fn lemma_picked_fixed64(number: u32, val: u64)
    ensures
        forall|n: u32| #[trigger]
            picked(fixed64_always(number, val), n) == if n == number {
                seq![Payload::Fixed64(val)]
            } else {
                Seq::empty()
            },
        forall|n: u32| #[trigger]
            picked(fixed64_opt(number, val), n) == if n == number && val != 0 {
                seq![Payload::Fixed64(val)]
            } else {
                Seq::empty()
            },
{
    lemma_picked_one(number, Payload::Fixed64(val));
}

/// What is picked from a length-delimited field.
pub proof fn lemma_picked_delimited(number: u32, data: Seq<u8>)
    ensures
        forall|n: u32| #[trigger]
            picked(delimited_opt(number, data), n) == if n == number && data.len() > 0 {
                seq![Payload::Delimited(data)]
            } else {
                Seq::empty()
            },
{
    lemma_picked_one(number, Payload::Delimited(data));
}

/// What is picked from a repeated field.
pub proof fn lemma_picked_repeated<T>(
    number: u32,
    items: Seq<T>,
    fields: spec_fn(T) -> Seq<WireField>,
)
    requires
        forall|i: int| 0 <= i < items.len() ==> (#[trigger] fields(items[i])).len() > 0,
    ensures
        forall|n: u32| #[trigger]
            picked(repeated(number, items, fields), n) == if n == number {
                items.map_values(|item: T| Payload::Delimited(message_bytes(fields(item))))
            } else {
                Seq::empty()
            },
    decreases items.len(),
{
    let write = |item: T| Payload::Delimited(message_bytes(fields(item)));
    if items.len() > 0 {
        let rest = items.drop_last();
        let last = items.last();
        assert forall|i: int| 0 <= i < rest.len() implies (#[trigger] fields(rest[i])).len()
            > 0 by {
            assert(rest[i] == items[i]);
        }
        lemma_picked_repeated(number, rest, fields);
        lemma_picked_concat(repeated(number, rest, fields), message_opt(number, fields(last)));
        assert(fields(items[items.len() - 1]).len() > 0);
        lemma_message_not_empty(fields(last));
        lemma_picked_delimited(number, message_bytes(fields(last)));
        assert forall|n: u32| #[trigger]
            picked(repeated(number, items, fields), n) == if n == number {
                items.map_values(write)
            } else {
                Seq::empty()
            } by {
            assert(picked(repeated(number, rest, fields), n) == if n == number {
                rest.map_values(write)
            } else {
                Seq::empty()
            });
            if n == number {
                assert(picked(repeated(number, items, fields), n) =~= items.map_values(write));
            } else {
                assert(picked(repeated(number, items, fields), n) =~= Seq::empty());
            }
        }
    } else {
        assert forall|n: u32| #[trigger]
            picked(repeated(number, items, fields), n) == if n == number {
                items.map_values(write)
            } else {
                Seq::empty()
            } by {
            if n == number {
                assert(picked(repeated(number, items, fields), n) =~= items.map_values(write));
            }
        }
    }
}

/// What is picked from a repeated field some of whose items may have no bytes: those are skipped.
pub proof fn lemma_picked_shown<T>(
    number: u32,
    items: Seq<T>,
    fields: spec_fn(T) -> Seq<WireField>,
)
    ensures
        forall|n: u32| #[trigger]
            picked(repeated(number, items, fields), n) == if n == number {
                items.filter(|item: T| fields(item).len() > 0).map_values(
                    |item: T| Payload::Delimited(message_bytes(fields(item))),
                )
            } else {
                Seq::empty()
            },
    decreases items.len(),
{
    let write = |item: T| Payload::Delimited(message_bytes(fields(item)));
    let shows = |item: T| fields(item).len() > 0;
    reveal(Seq::filter);
    if items.len() > 0 {
        let rest = items.drop_last();
        let last = items.last();
        lemma_picked_shown(number, rest, fields);
        lemma_picked_concat(repeated(number, rest, fields), message_opt(number, fields(last)));
        lemma_picked_delimited(number, message_bytes(fields(last)));
        if fields(last).len() > 0 {
            lemma_message_not_empty(fields(last));
        }
        assert forall|n: u32| #[trigger]
            picked(repeated(number, items, fields), n) == if n == number {
                items.filter(shows).map_values(write)
            } else {
                Seq::empty()
            } by {
            assert(picked(repeated(number, rest, fields), n) == if n == number {
                rest.filter(shows).map_values(write)
            } else {
                Seq::empty()
            });
            if n == number {
                assert(picked(repeated(number, items, fields), n) =~= items.filter(
                    shows,
                ).map_values(write));
            } else {
                assert(picked(repeated(number, items, fields), n) =~= Seq::empty());
            }
        }
    } else {
        assert forall|n: u32| #[trigger]
            picked(repeated(number, items, fields), n) == if n == number {
                items.filter(shows).map_values(write)
            } else {
                Seq::empty()
            } by {
            if n == number {
                assert(picked(repeated(number, items, fields), n) =~= items.filter(
                    shows,
                ).map_values(write));
            }
        }
    }
}

/// Reading a repeated field gives back each item that can be read back.
pub proof fn lemma_read_repeated<T, U>(
    message: Seq<WireField>,
    number: u32,
    items: Seq<T>,
    fields: spec_fn(T) -> Seq<WireField>,
    read: spec_fn(Seq<WireField>) -> U,
    meaning: Seq<U>,
)
    requires
        picked(message, number) == items.map_values(
            |item: T| Payload::Delimited(message_bytes(fields(item))),
        ),
        meaning.len() == items.len(),
        forall|i: int| 0 <= i < items.len() ==> read(fields(#[trigger] items[i])) == meaning[i],
    ensures
        read_repeated(message, number, read) == meaning,
{
    let got = read_repeated(message, number, read);
    assert forall|i: int| 0 <= i < items.len() implies got[i] == meaning[i] by {
        lemma_fields_of(fields(items[i]));
        assert(payload_data(picked(message, number)[i]) == message_bytes(fields(items[i])));
    }
    assert(got =~= meaning);
}

} // verus!
