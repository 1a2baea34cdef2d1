//! Hexadecimal text of trace and span identifiers.

use vstd::prelude::*;

verus! {

/// The lower-case hexadecimal digit of `n`.
pub open spec fn hex_digit(n: int) -> char {
    if n < 10 {
        ('0' as u8 + n) as char
    } else {
        ('a' as u8 + n - 10) as char
    }
}

/// Two lower-case digits for each byte, the high half first.
pub open spec fn hex_text(bytes: Seq<u8>) -> Seq<char> {
    Seq::new(
        2 * bytes.len(),
        |i: int|
            if i % 2 == 0 {
                hex_digit(bytes[i / 2] as int / 16)
            } else {
                hex_digit(bytes[i / 2] as int % 16)
            },
    )
}

/// The value of a hexadecimal digit of either case.
pub open spec fn digit_value(b: u8) -> Option<u8> {
    if '0' as u8 <= b <= '9' as u8 {
        Some((b - '0' as u8) as u8)
    } else if 'a' as u8 <= b <= 'f' as u8 {
        Some((b - 'a' as u8 + 10) as u8)
    } else if 'A' as u8 <= b <= 'F' as u8 {
        Some((b - 'A' as u8 + 10) as u8)
    } else {
        None
    }
}

/// Whether `bytes` are the text of sixteen bytes: thirty-two digits and nothing else.
pub open spec fn is_hex_16(bytes: Seq<u8>) -> bool {
    bytes.len() == 32 && forall|i: int| 0 <= i < 32 ==> digit_value(#[trigger] bytes[i]) is Some
}

/// The bytes that hexadecimal text stands for.
pub open spec fn hex_bytes(text: Seq<u8>) -> Seq<u8> {
    Seq::new(
        text.len() / 2,
        |i: int|
            (digit_value(text[2 * i])->0 * 16 + digit_value(text[2 * i + 1])->0) as u8,
    )
}

/// The lower-case digit of a four-bit value, as text.
fn digit_str(n: u8) -> (digit: &'static str)
    requires
        n < 16,
    ensures
        digit@ == seq![hex_digit(n as int)],
{
    proof {
        reveal_strlit("0");
        reveal_strlit("1");
        reveal_strlit("2");
        reveal_strlit("3");
        reveal_strlit("4");
        reveal_strlit("5");
        reveal_strlit("6");
        reveal_strlit("7");
        reveal_strlit("8");
        reveal_strlit("9");
        reveal_strlit("a");
        reveal_strlit("b");
        reveal_strlit("c");
        reveal_strlit("d");
        reveal_strlit("e");
        reveal_strlit("f");
    }
    match n {
        0 => "0",
        1 => "1",
        2 => "2",
        3 => "3",
        4 => "4",
        5 => "5",
        6 => "6",
        7 => "7",
        8 => "8",
        9 => "9",
        10 => "a",
        11 => "b",
        12 => "c",
        13 => "d",
        14 => "e",
        _ => "f",
    }
}

/// Encode bytes as lower-case hexadecimal.
pub fn hex_encode(bytes: &[u8]) -> (text: String)
    ensures
        text@ == hex_text(bytes@),
{
    let mut text = String::new();
    let mut i: usize = 0;
    while i < bytes.len()
        invariant
            i <= bytes@.len(),
            text@ == hex_text(bytes@.take(i as int)),
        decreases bytes@.len() - i,
    {
        text.append(digit_str(bytes[i] / 16));
        text.append(digit_str(bytes[i] % 16));
        i = i + 1;
        assert(text@ == hex_text(bytes@.take(i as int)));
    }
    assert(bytes@.take(i as int) == bytes@);
    text
}

/// The value of a hexadecimal digit, `None` for any other byte.
pub fn hex_nibble(b: u8) -> (value: Option<u8>)
    ensures
        value == digit_value(b),
{
    if '0' as u8 <= b && b <= '9' as u8 {
        Some(b - '0' as u8)
    } else if 'a' as u8 <= b && b <= 'f' as u8 {
        Some(b - 'a' as u8 + 10)
    } else if 'A' as u8 <= b && b <= 'F' as u8 {
        Some(b - 'A' as u8 + 10)
    } else {
        None
    }
}

/// Read sixteen bytes from thirty-two hexadecimal digits of either case.
/// Any other text is an error.
pub fn hex_to_bytes_16(s: &str) -> (result: Result<[u8; 16], ()>)
    ensures
        result is Ok <==> is_hex_16(vstd::utf8::encode_utf8(s@)),
        result matches Ok(bytes) ==> bytes@ == hex_bytes(vstd::utf8::encode_utf8(s@)),
{
    let text = s.as_bytes();
    if text.len() != 32 {
        return Err(());
    }
    let mut out = [0u8;16];
    let mut i: usize = 0;
    while i < 16
        invariant
            i <= 16,
            text@.len() == 32,
            forall|j: int| 0 <= j < 2 * i ==> digit_value(#[trigger] text@[j]) is Some,
            forall|j: int| 0 <= j < i ==> #[trigger] out@[j] == hex_bytes(text@)[j],
            text@ == vstd::utf8::encode_utf8(s@),
        decreases 16 - i,
    {
        let hi: u8 = match hex_nibble(text[2 * i]) {
            Some(value) => value,
            None => {
                return Err(());
            },
        };
        let lo: u8 = match hex_nibble(text[2 * i + 1]) {
            Some(value) => value,
            None => {
                return Err(());
            },
        };
        out[i] = hi * 16 + lo;
        i = i + 1;
    }
    assert(out@ == hex_bytes(text@));
    Ok(out)
}

/// A digit of either case has the value of its lower-case form.
pub proof fn law_digit_value(n: u8)
    requires
        n < 16,
    ensures
        digit_value(hex_digit(n as int) as u8) == Some(n),
        n >= 10 ==> digit_value((hex_digit(n as int) as u8 - 32) as u8) == Some(n),
{
}

proof fn lemma_hex_text_is_ascii(bytes: Seq<u8>)
    ensures
        vstd::utf8::encode_utf8(hex_text(bytes)) == hex_text(bytes).map_values(|c: char| c as u8),
{
    vstd::utf8::is_ascii_chars_encode_utf8(hex_text(bytes));
    assert(vstd::utf8::encode_utf8(hex_text(bytes)) =~= hex_text(bytes).map_values(
        |c: char| c as u8,
    ));
}

/// Reading the text of an identifier gives the identifier back.
pub proof fn law_hex_round_trip(id: Seq<u8>)
    requires
        id.len() == 16,
    ensures
        is_hex_16(vstd::utf8::encode_utf8(hex_text(id))),
        hex_bytes(vstd::utf8::encode_utf8(hex_text(id))) == id,
{
    lemma_hex_text_is_ascii(id);
    let text = vstd::utf8::encode_utf8(hex_text(id));
    assert forall|i: int| 0 <= i < 32 implies digit_value(#[trigger] text[i]) == Some(
        (if i % 2 == 0 {
            id[i / 2] as int / 16
        } else {
            id[i / 2] as int % 16
        }) as u8,
    ) by {
        law_digit_value((id[i / 2] as int / 16) as u8);
        law_digit_value((id[i / 2] as int % 16) as u8);
    }
    assert forall|i: int| 0 <= i < 16 implies hex_bytes(text)[i] == id[i] by {
        assert(digit_value(text[2 * i]) is Some);
        assert(digit_value(text[2 * i + 1]) is Some);
    }
    assert(hex_bytes(text) =~= id);
}

/// Distinct identifiers have distinct texts.
pub proof fn law_hex_text_injective(a: Seq<u8>, b: Seq<u8>)
    requires
        hex_text(a) == hex_text(b),
    ensures
        a == b,
{
    assert(hex_text(a).len() == 2 * a.len());
    assert(hex_text(b).len() == 2 * b.len());
    assert forall|i: int| 0 <= i < a.len() implies a[i] == b[i] by {
        assert((2 * i) / 2 == i && (2 * i + 1) / 2 == i);
        assert(hex_text(a)[2 * i] == hex_digit(a[i] as int / 16));
        assert(hex_text(b)[2 * i] == hex_digit(b[i] as int / 16));
        assert(hex_text(a)[2 * i + 1] == hex_digit(a[i] as int % 16));
        assert(hex_text(b)[2 * i + 1] == hex_digit(b[i] as int % 16));
        law_digit_value((a[i] as int / 16) as u8);
        law_digit_value((b[i] as int / 16) as u8);
        law_digit_value((a[i] as int % 16) as u8);
        law_digit_value((b[i] as int % 16) as u8);
    }
    assert(a =~= b);
}

/// The text of bytes has two digits for each, of `0` to `9` and `a` to `f`: the high half first,
/// then the low half.
pub proof fn law_hex_text_digits(bytes: Seq<u8>, i: int)
    requires
        0 <= i < bytes.len(),
    ensures
        hex_text(bytes).len() == 2 * bytes.len(),
        ({
            let high = hex_text(bytes)[2 * i] as int;
            let low = hex_text(bytes)[2 * i + 1] as int;
            &&& 0x30 <= high <= 0x39 || 0x61 <= high <= 0x66
            &&& 0x30 <= low <= 0x39 || 0x61 <= low <= 0x66
            &&& bytes[i] == 16 * (if high <= 0x39 {
                high - 0x30
            } else {
                high - 0x61 + 10
            }) + (if low <= 0x39 {
                low - 0x30
            } else {
                low - 0x61 + 10
            })
        }),
{
    assert((2 * i) / 2 == i && (2 * i + 1) / 2 == i && (2 * i) % 2 == 0 && (2 * i + 1) % 2 == 1);
    assert(hex_text(bytes)[2 * i] == hex_digit(bytes[i] as int / 16));
    assert(hex_text(bytes)[2 * i + 1] == hex_digit(bytes[i] as int % 16));
}

/// A byte is a hexadecimal digit exactly if it is one of `0` to `9`, `a` to `f` and `A` to `F`, and
/// then its value is its place in that range, ten further on for a letter.
pub proof fn law_hex_digits(b: u8)
    ensures
        digit_value(b) is Some <==> 0x30 <= b <= 0x39 || 0x61 <= b <= 0x66 || 0x41 <= b <= 0x46,
        0x30 <= b <= 0x39 ==> digit_value(b) == Some((b - 0x30) as u8),
        0x61 <= b <= 0x66 ==> digit_value(b) == Some((b - 0x61 + 10) as u8),
        0x41 <= b <= 0x46 ==> digit_value(b) == Some((b - 0x41 + 10) as u8),
{
}

/// A text is that of sixteen bytes exactly if it is thirty-two digits, whichever case they have; it
/// then stands for the bytes whose halves have the values of its digits, in order.
pub proof fn law_hex_16(text: Seq<u8>)
    ensures
        is_hex_16(text) <==> text.len() == 32 && forall|i: int|
            0 <= i < 32 ==> 0x30 <= #[trigger] text[i] <= 0x39 || 0x61 <= text[i] <= 0x66 || 0x41
                <= text[i] <= 0x46,
        is_hex_16(text) ==> hex_bytes(text).len() == 16 && forall|i: int|
            0 <= i < 16 ==> #[trigger] hex_bytes(text)[i] == 16 * digit_value(text[2 * i])->0
                + digit_value(text[2 * i + 1])->0,
{
    if is_hex_16(text) {
        assert forall|i: int| 0 <= i < 32 implies 0x30 <= #[trigger] text[i] <= 0x39 || 0x61
            <= text[i] <= 0x66 || 0x41 <= text[i] <= 0x46 by {
            assert(digit_value(text[i]) is Some);
        }
        assert forall|i: int| 0 <= i < 16 implies #[trigger] hex_bytes(text)[i] == 16 * digit_value(
            text[2 * i],
        )->0 + digit_value(text[2 * i + 1])->0 by {
            assert(digit_value(text[2 * i]) is Some);
            assert(digit_value(text[2 * i + 1]) is Some);
        }
    }
}

} // verus!
