//! Percent-decoding of URL text.

use std::borrow::Cow;
use vstd::prelude::*;

verus! {

/// The value of a hexadecimal digit, in either case.
pub open spec fn hex_value(b: u8) -> Option<u8> {
    if 0x30 <= b <= 0x39 {
        Some((b - 0x30) as u8)
    } else if 0x41 <= b <= 0x46 {
        Some((b - 0x41 + 10) as u8)
    } else if 0x61 <= b <= 0x66 {
        Some((b - 0x61 + 10) as u8)
    } else {
        None
    }
}

/// The two bytes together are well-formed UTF-8: two ASCII characters, or one character
/// of two bytes.
pub open spec fn is_utf8_pair(b1: u8, b2: u8) -> bool {
    ||| b1 < 0x80 && b2 < 0x80
    ||| 0xc2 <= b1 <= 0xdf && 0x80 <= b2 <= 0xbf
}

/// What the two bytes after a `%` stand for, or `None` where the `%` is an ordinary
/// character.
///
/// Two hexadecimal digits stand for a byte, and so does one digit behind a `+`. Two
/// bytes that are no text at all stand for zero.
pub open spec fn escaped(b1: u8, b2: u8) -> Option<u8> {
    if !is_utf8_pair(b1, b2) {
        Some(0)
    } else if hex_value(b1) is Some && hex_value(b2) is Some {
        Some((hex_value(b1)->0 * 16 + hex_value(b2)->0) as u8)
    } else if b1 == 0x2b {
        hex_value(b2)
    } else {
        None
    }
}

/// `bytes` starts with an escape: a `%`, two more bytes, and these stand for something.
pub open spec fn starts_escape(bytes: Seq<u8>) -> bool {
    bytes.len() > 2 && bytes[0] == 0x25 && escaped(bytes[1], bytes[2]) is Some
}

/// `bytes` with each escape replaced; every byte of the outcome becomes the character
/// with that code.
pub open spec fn decoded_bytes(bytes: Seq<u8>) -> Seq<char>
    decreases bytes.len(),
{
    if bytes.len() == 0 {
        seq![]
    } else if starts_escape(bytes) {
        seq![escaped(bytes[1], bytes[2])->0 as char] + decoded_bytes(bytes.skip(3))
    } else {
        seq![bytes[0] as char] + decoded_bytes(bytes.skip(1))
    }
}

/// Percent-decoded text: `text` itself where it holds no `%`, otherwise its UTF-8 bytes
/// decoded.
pub open spec fn url_decoded(text: Seq<char>) -> Seq<char> {
    if text.contains('%') {
        decoded_bytes(vstd::utf8::encode_utf8(text))
    } else {
        text
    }
}

/// The escape of a byte: `%` and two upper-case hexadecimal digits.
pub open spec fn escape_of(b: u8) -> Seq<u8> {
    seq![0x25, hex_digit((b / 16) as int), hex_digit((b % 16) as int)]
}

/// The upper-case hexadecimal digit of a value below sixteen.
pub open spec fn hex_digit(v: int) -> u8 {
    if v < 10 {
        (0x30 + v) as u8
    } else {
        (0x41 + v - 10) as u8
    }
}

/// Every byte escaped.
pub open spec fn escape_all(bytes: Seq<u8>) -> Seq<u8>
    decreases bytes.len(),
{
    if bytes.len() == 0 {
        seq![]
    } else {
        escape_of(bytes[0]) + escape_all(bytes.skip(1))
    }
}

fn hex(b: u8) -> (r: Option<u8>)
    ensures
        r == hex_value(b),
{
    if 0x30 <= b && b <= 0x39 {
        Some(b - 0x30)
    } else if 0x41 <= b && b <= 0x46 {
        Some(b - 0x41 + 10)
    } else if 0x61 <= b && b <= 0x66 {
        Some(b - 0x61 + 10)
    } else {
        None
    }
}

fn escape_value(b1: u8, b2: u8) -> (r: Option<u8>)
    ensures
        r == escaped(b1, b2),
{
    let is_text = (b1 < 0x80 && b2 < 0x80) || (0xc2 <= b1 && b1 <= 0xdf && 0x80 <= b2 && b2 <= 0xbf);
    if !is_text {
        return Some(0);
    }
    match (hex(b1), hex(b2)) {
        (Some(high), Some(low)) => Some(high * 16 + low),
        (_, low) => if b1 == 0x2b {
            low
        } else {
            None
        },
    }
}

/// Percent-decodes `input`. Text without a `%` is handed back as it is.
pub fn url_decode(input: &str) -> (r: Cow<'_, str>)
    ensures
        r@ == url_decoded(input@),
        r is Borrowed <==> !input@.contains('%'),
{
    if !crate::text::has_char(input, '%') {
        return Cow::Borrowed(input);
    }
    let bytes = input.as_bytes();
    let mut out = String::new();
    let mut i: usize = 0;
    assert(bytes@.skip(0) == bytes@);
    while i < bytes.len()
        invariant
            i <= bytes@.len(),
            out@ + decoded_bytes(bytes@.skip(i as int)) == decoded_bytes(bytes@),
        decreases bytes@.len() - i,
    {
        let ghost rest = bytes@.skip(i as int);
        if bytes[i] == 0x25 && bytes.len() - i > 2 {
            if let Some(value) = escape_value(bytes[i + 1], bytes[i + 2]) {
                out.push(value as char);
                i += 3;
                assert(rest.skip(3) == bytes@.skip(i as int));
                continue;
            }
        }
        out.push(bytes[i] as char);
        i += 1;
        assert(rest.skip(1) == bytes@.skip(i as int));
    }
    Cow::Owned(out)
}

/// Text without a `%` is its own decoding.
pub proof fn plain_text_decodes_to_itself(text: Seq<char>)
    requires
        !text.contains('%'),
    ensures
        url_decoded(text) == text,
{
}

/// Escaping every byte and decoding the text gives back each byte, as the character with
/// its code.
pub proof fn decoding_undoes_escaping(bytes: Seq<u8>)
    ensures
        url_decoded(as_chars(escape_all(bytes))) == as_chars(bytes),
{
    let escapes = escape_all(bytes);
    let text = as_chars(escapes);
    lemma_decoded_escapes(bytes);
    if bytes.len() > 0 {
        lemma_escapes_are_ascii(bytes);
        vstd::utf8::is_ascii_chars_encode_utf8(text);
        assert(vstd::utf8::encode_utf8(text) =~= escapes);
        assert(text[0] == '%');
    }
}

/// Text with a `%` in it is decoded byte by byte of its UTF-8 form, and any other text is
/// left alone.
pub proof fn only_text_with_a_percent_sign_is_decoded(text: Seq<char>)
    ensures
        (exists|i: int| 0 <= i < text.len() && #[trigger] text[i] == '%') ==> url_decoded(text)
            == decoded_bytes(vstd::utf8::encode_utf8(text)),
        (forall|i: int| 0 <= i < text.len() ==> #[trigger] text[i] != '%') ==> url_decoded(text)
            == text,
{
}

/// Bytes before the first `%` are kept, each as the character with its code, and have no
/// influence on what follows them.
pub proof fn bytes_that_start_no_escape_are_kept(front: Seq<u8>, rest: Seq<u8>)
    requires
        forall|i: int| 0 <= i < front.len() ==> #[trigger] front[i] != 0x25,
    ensures
        decoded_bytes(front + rest) == as_chars(front) + decoded_bytes(rest),
        decoded_bytes(front) == as_chars(front),
    decreases front.len(),
{
    if front.len() == 0 {
        assert(front + rest == rest);
        assert(as_chars(front) + decoded_bytes(rest) == decoded_bytes(rest));
        assert(decoded_bytes(front) == as_chars(front));
    } else {
        let tail = front.skip(1);
        bytes_that_start_no_escape_are_kept(tail, rest);
        assert((front + rest).skip(1) == tail + rest);
        assert((front + rest)[0] == front[0]);
        assert(as_chars(front) == seq![front[0] as char] + as_chars(tail));
        assert(as_chars(front) + decoded_bytes(rest) == seq![front[0] as char] + (as_chars(tail)
            + decoded_bytes(rest)));
    }
}

/// The byte is a hexadecimal digit for the value, in either case.
pub open spec fn writes_digit(digit: u8, value: int) -> bool {
    &&& 0 <= value < 16
    &&& digit as char == "0123456789ABCDEF"@[value] || digit as char == "0123456789abcdef"@[value]
}

/// A `%` and two hexadecimal digits, in either case, stand for the character whose code
/// the digits write, wherever they stand and whatever follows.
pub proof fn escapes_stand_for_bytes(front: Seq<u8>, high: u8, low: u8, b: u8, rest: Seq<u8>)
    requires
        forall|i: int| 0 <= i < front.len() ==> #[trigger] front[i] != 0x25,
        writes_digit(high, b as int / 16),
        writes_digit(low, b as int % 16),
    ensures
        decoded_bytes(front + seq![0x25u8, high, low] + rest) == as_chars(front).push(b as char)
            + decoded_bytes(rest),
{
    lemma_digit(high, b as int / 16);
    lemma_digit(low, b as int % 16);
    lemma_escape_at(front, high, low, b, rest);
}

/// One hexadecimal digit behind a `+` stands for its value too.
pub proof fn signed_digits_stand_for_bytes(front: Seq<u8>, low: u8, b: u8, rest: Seq<u8>)
    requires
        forall|i: int| 0 <= i < front.len() ==> #[trigger] front[i] != 0x25,
        writes_digit(low, b as int),
    ensures
        decoded_bytes(front + seq![0x25u8, 0x2bu8, low] + rest) == as_chars(front).push(b as char)
            + decoded_bytes(rest),
{
    lemma_digit(low, b as int);
    lemma_escape_at(front, 0x2b, low, b, rest);
}

/// Two bytes behind a `%` that are no UTF-8 text stand for a zero.
pub proof fn broken_text_stands_for_zero(front: Seq<u8>, b1: u8, b2: u8, rest: Seq<u8>)
    requires
        forall|i: int| 0 <= i < front.len() ==> #[trigger] front[i] != 0x25,
        !vstd::utf8::valid_utf8(seq![b1, b2]),
    ensures
        decoded_bytes(front + seq![0x25u8, b1, b2] + rest) == as_chars(front).push(0u8 as char)
            + decoded_bytes(rest),
{
    lemma_utf8_pair(b1, b2);
    lemma_escape_at(front, b1, b2, 0, rest);
}

/// A `%` stays as it is where fewer than two bytes follow it.
pub proof fn cut_off_escapes_stay(front: Seq<u8>, rest: Seq<u8>)
    requires
        forall|i: int| 0 <= i < front.len() ==> #[trigger] front[i] != 0x25,
        rest.len() < 2,
    ensures
        decoded_bytes(front + seq![0x25u8] + rest) == as_chars(front).push('%') + decoded_bytes(
            rest,
        ),
{
    lemma_percent_at(front, rest);
}

/// A `%` stays as it is where the two bytes behind it are text, but neither two
/// hexadecimal digits nor one behind a `+`; and what follows it is decoded by itself.
pub proof fn other_percent_signs_stay(front: Seq<u8>, b1: u8, b2: u8, rest: Seq<u8>)
    requires
        forall|i: int| 0 <= i < front.len() ==> #[trigger] front[i] != 0x25,
        vstd::utf8::valid_utf8(seq![b1, b2]),
        (forall|v: int| !writes_digit(b2, v)) || (b1 != 0x2b && forall|v: int| !writes_digit(b1, v)),
    ensures
        decoded_bytes(front + seq![0x25u8, b1, b2] + rest) == as_chars(front).push('%')
            + decoded_bytes(seq![b1, b2] + rest),
{
    lemma_utf8_pair(b1, b2);
    lemma_no_digit(b1);
    lemma_no_digit(b2);
    lemma_percent_at(front, seq![b1, b2] + rest);
    assert(front + seq![0x25u8, b1, b2] + rest == front + seq![0x25u8] + (seq![b1, b2] + rest));
}

/// The bytes with the chosen ones escaped.
pub open spec fn escape_chosen(bytes: Seq<u8>, chosen: Seq<bool>) -> Seq<u8>
    decreases bytes.len(),
{
    if bytes.len() == 0 {
        seq![]
    } else {
        (if chosen[0] {
            escape_of(bytes[0])
        } else {
            seq![bytes[0]]
        }) + escape_chosen(bytes.skip(1), chosen.skip(1))
    }
}

/// Whichever bytes of an ASCII text are escaped, as long as every `%` is, decoding gives
/// the text back.
pub proof fn decoding_undoes_partial_escaping(bytes: Seq<u8>, chosen: Seq<bool>)
    requires
        bytes.len() == chosen.len(),
        forall|i: int| 0 <= i < bytes.len() ==> #[trigger] bytes[i] < 0x80,
        forall|i: int| 0 <= i < bytes.len() && #[trigger] bytes[i] == 0x25 ==> chosen[i],
    ensures
        url_decoded(as_chars(escape_chosen(bytes, chosen))) == as_chars(bytes),
{
    let escapes = escape_chosen(bytes, chosen);
    let text = as_chars(escapes);
    lemma_decoded_chosen(bytes, chosen);
    if text.contains('%') {
        vstd::utf8::is_ascii_chars_encode_utf8(text);
        assert(vstd::utf8::encode_utf8(text) =~= escapes);
    } else {
        assert forall|i: int| 0 <= i < escapes.len() implies #[trigger] escapes[i] != 0x25 by {
            assert(text[i] == escapes[i] as char);
        }
        bytes_that_start_no_escape_are_kept(escapes, seq![]);
    }
}

/// The characters with the given codes.
pub open spec fn as_chars(bytes: Seq<u8>) -> Seq<char> {
    bytes.map_values(|b: u8| b as char)
}

proof fn lemma_decoded_escapes(bytes: Seq<u8>)
    ensures
        decoded_bytes(escape_all(bytes)) == as_chars(bytes),
    decreases bytes.len(),
{
    if bytes.len() > 0 {
        let b = bytes[0];
        let escapes = escape_all(bytes);
        lemma_decoded_escapes(bytes.skip(1));
        assert(escapes.skip(3) == escape_all(bytes.skip(1)));
        assert(escaped(escapes[1], escapes[2]) == Some(b)) by {
            assert(b / 16 < 16 && b == (b / 16) * 16 + b % 16);
        }
        assert(as_chars(bytes) == seq![b as char] + as_chars(bytes.skip(1)));
    } else {
        assert(as_chars(bytes) == Seq::<char>::empty());
    }
}

proof fn lemma_escapes_are_ascii(bytes: Seq<u8>)
    ensures
        forall|i: int| 0 <= i < escape_all(bytes).len() ==> escape_all(bytes)[i] < 0x80,
    decreases bytes.len(),
{
    if bytes.len() > 0 {
        let rest = escape_all(bytes.skip(1));
        lemma_escapes_are_ascii(bytes.skip(1));
        assert forall|i: int| 0 <= i < escape_all(bytes).len() implies escape_all(bytes)[i]
            < 0x80 by {
            if i >= 3 {
                assert(escape_all(bytes)[i] == rest[i - 3]);
            } else {
                assert(escape_all(bytes)[i] == escape_of(bytes[0])[i]);
            }
        }
    }
}

proof fn lemma_decoded_chosen(bytes: Seq<u8>, chosen: Seq<bool>)
    requires
        bytes.len() == chosen.len(),
        forall|i: int| 0 <= i < bytes.len() ==> #[trigger] bytes[i] < 0x80,
        forall|i: int| 0 <= i < bytes.len() && #[trigger] bytes[i] == 0x25 ==> chosen[i],
    ensures
        decoded_bytes(escape_chosen(bytes, chosen)) == as_chars(bytes),
        forall|i: int|
            0 <= i < escape_chosen(bytes, chosen).len() ==> #[trigger] escape_chosen(bytes, chosen)[i]
                < 0x80,
    decreases bytes.len(),
{
    if bytes.len() > 0 {
        let b = bytes[0];
        let escapes = escape_chosen(bytes, chosen);
        let rest = escape_chosen(bytes.skip(1), chosen.skip(1));
        lemma_decoded_chosen(bytes.skip(1), chosen.skip(1));
        if chosen[0] {
            assert(escapes.skip(3) == rest);
            assert(escaped(escapes[1], escapes[2]) == Some(b)) by {
                assert(b / 16 < 16 && b == (b / 16) * 16 + b % 16);
            }
        } else {
            assert(escapes.skip(1) == rest);
            assert(escapes[0] == b);
        }
        assert(as_chars(bytes) == seq![b as char] + as_chars(bytes.skip(1)));
        assert forall|i: int| 0 <= i < escapes.len() implies #[trigger] escapes[i] < 0x80 by {
            if chosen[0] {
                if i >= 3 {
                    assert(escapes[i] == rest[i - 3]);
                } else {
                    assert(escapes[i] == escape_of(b)[i]);
                }
            } else if i >= 1 {
                assert(escapes[i] == rest[i - 1]);
            }
        }
    } else {
        assert(as_chars(bytes) == Seq::<char>::empty());
    }
}

proof fn lemma_escape_at(front: Seq<u8>, b1: u8, b2: u8, b: u8, rest: Seq<u8>)
    requires
        forall|i: int| 0 <= i < front.len() ==> #[trigger] front[i] != 0x25,
        escaped(b1, b2) == Some(b),
    ensures
        decoded_bytes(front + seq![0x25u8, b1, b2] + rest) == as_chars(front).push(b as char)
            + decoded_bytes(rest),
{
    let tail = seq![0x25u8, b1, b2] + rest;
    bytes_that_start_no_escape_are_kept(front, tail);
    assert(front + seq![0x25u8, b1, b2] + rest == front + tail);
    assert(tail.skip(3) == rest);
    assert(tail[0] == 0x25 && tail[1] == b1 && tail[2] == b2);
    assert(decoded_bytes(tail) == seq![b as char] + decoded_bytes(rest));
    assert(as_chars(front) + (seq![b as char] + decoded_bytes(rest)) == as_chars(front).push(
        b as char,
    ) + decoded_bytes(rest));
}

proof fn lemma_percent_at(front: Seq<u8>, rest: Seq<u8>)
    requires
        forall|i: int| 0 <= i < front.len() ==> #[trigger] front[i] != 0x25,
        rest.len() >= 2 ==> escaped(rest[0], rest[1]) is None,
    ensures
        decoded_bytes(front + seq![0x25u8] + rest) == as_chars(front).push('%') + decoded_bytes(
            rest,
        ),
{
    let tail = seq![0x25u8] + rest;
    bytes_that_start_no_escape_are_kept(front, tail);
    assert(front + seq![0x25u8] + rest == front + tail);
    assert(tail.skip(1) == rest);
    assert(tail[0] == 0x25);
    if rest.len() >= 2 {
        assert(tail[1] == rest[0] && tail[2] == rest[1]);
    }
    assert(decoded_bytes(tail) == seq!['%'] + decoded_bytes(rest));
    assert(as_chars(front) + (seq!['%'] + decoded_bytes(rest)) == as_chars(front).push('%')
        + decoded_bytes(rest));
}

proof fn lemma_digit(digit: u8, value: int)
    requires
        writes_digit(digit, value),
    ensures
        hex_value(digit) == Some(value as u8),
        digit < 0x80,
        digit != 0x2b,
{
    reveal_strlit("0123456789ABCDEF");
    reveal_strlit("0123456789abcdef");
}

proof fn lemma_no_digit(b: u8)
    ensures
        (forall|v: int| !writes_digit(b, v)) ==> hex_value(b) is None,
{
    reveal_strlit("0123456789ABCDEF");
    reveal_strlit("0123456789abcdef");
    if hex_value(b) is Some {
        assert(writes_digit(b, hex_value(b)->0 as int));
    }
}

/// The test on two bytes is that of UTF-8.
proof fn lemma_utf8_pair(b1: u8, b2: u8)
    ensures
        is_utf8_pair(b1, b2) == vstd::utf8::valid_utf8(seq![b1, b2]),
{
    let pair = seq![b1, b2];
    let last = seq![b2];
    reveal_with_fuel(vstd::utf8::valid_utf8, 3);
    assert((b1 & 0x7f) as u32 <= 0x7f) by (bit_vector);
    assert((b2 & 0x7f) as u32 <= 0x7f) by (bit_vector);
    assert(((((b1 & 0x1f) as u32) << 6) | ((b2 & 0x3f) as u32)) <= 0x7ff) by (bit_vector);
    if 0xc0 <= b1 <= 0xdf {
        assert((0x80 <= ((((b1 & 0x1f) as u32) << 6) | ((b2 & 0x3f) as u32))) == (b1 >= 0xc2))
            by (bit_vector)
            requires
                0xc0 <= b1 <= 0xdf,
        ;
        assert(vstd::utf8::pop_first_scalar(pair).len() == 0);
    }
    if b1 < 0x80 {
        assert(vstd::utf8::pop_first_scalar(pair) == last);
    }
    if b2 < 0x80 {
        assert(vstd::utf8::pop_first_scalar(last).len() == 0);
    }
}

} // verus!
