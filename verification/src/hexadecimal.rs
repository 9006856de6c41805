//! Bytes written as hexadecimal text.

use vstd::prelude::*;

verus! {

/// What went wrong in `hex::decode`.
#[verifier::external_type_specification]
#[verifier::external_body]
pub struct ExFromHexError(hex::FromHexError);

/// The value of a hexadecimal digit of either case.
pub open spec fn digit_value(c: char) -> Option<int> {
    if '0' <= c <= '9' {
        Some(c as int - '0' as int)
    } else if 'a' <= c <= 'f' {
        Some(c as int - 'a' as int + 10)
    } else if 'A' <= c <= 'F' {
        Some(c as int - 'A' as int + 10)
    } else {
        None
    }
}

/// The lower-case hexadecimal digit of a value below sixteen.
pub open spec fn digit(value: int) -> char {
    if value < 10 {
        ('0' as int + value) as char
    } else {
        ('a' as int + value - 10) as char
    }
}

/// The bytes that `text` stands for, two digits a byte, the higher one first. There are none
/// where a character is no digit or where a digit is left over.
pub open spec fn decoded(text: Seq<char>) -> Option<Seq<u8>> {
    if text.len() % 2 == 0 && (forall|i: int|
        0 <= i < text.len() ==> digit_value(#[trigger] text[i]) is Some) {
        Some(
            Seq::new(
                (text.len() / 2) as nat,
                |i: int| (16 * digit_value(text[2 * i])->0 + digit_value(text[2 * i + 1])->0) as u8,
            ),
        )
    } else {
        None
    }
}

/// `bytes` as text: two lower-case digits a byte, the higher one first.
pub open spec fn encoded(bytes: Seq<u8>) -> Seq<char> {
    Seq::new(
        2 * bytes.len(),
        |i: int|
            if i % 2 == 0 {
                digit(bytes[i / 2] as int / 16)
            } else {
                digit(bytes[i / 2] as int % 16)
            },
    )
}

/// Calls `hex::decode` on the UTF-8 bytes of `text`. The contract claims that it succeeds exactly
/// on an even number of hexadecimal digits of either case, with the bytes they stand for. Which
/// error is returned otherwise is left unsaid: no caller looks at it.
#[verifier::external_body]
pub(crate) fn decode(text: &str) -> (result: Result<Vec<u8>, hex::FromHexError>)
    ensures
        result is Ok <==> decoded(text@) is Some,
        result matches Ok(bytes) ==> decoded(text@) == Some(bytes@),
{
    hex::decode(text)
}

/// Calls `hex::encode`. The contract claims that it writes every byte as two lower-case digits.
#[verifier::external_body]
pub(crate) fn encode(bytes: &[u8]) -> (text: String)
    ensures
        text@ == encoded(bytes@),
{
    hex::encode(bytes)
}

proof fn lemma_digit_round_trip(value: int)
    requires
        0 <= value < 16,
    ensures
        digit_value(digit(value)) == Some(value),
{
}

/// Decoding gives back what was encoded.
pub proof fn law_decode_of_encode(bytes: Seq<u8>)
    ensures
        decoded(encoded(bytes)) == Some(bytes),
{
    let text = encoded(bytes);
    assert forall|i: int| 0 <= i < text.len() implies digit_value(#[trigger] text[i]) is Some by {
        lemma_digit_round_trip(bytes[i / 2] as int / 16);
        lemma_digit_round_trip(bytes[i / 2] as int % 16);
    }
    assert forall|i: int| 0 <= i < bytes.len() implies #[trigger] decoded(text)->0[i]
        == bytes[i] by {
        lemma_digit_round_trip(bytes[i] as int / 16);
        lemma_digit_round_trip(bytes[i] as int % 16);
        assert(text[2 * i] == digit(bytes[i] as int / 16));
        assert(text[2 * i + 1] == digit(bytes[i] as int % 16));
    }
    assert(decoded(text)->0 =~= bytes);
}

/// A letter of ASCII in lower case, and any other character as it is.
pub open spec fn lower(c: char) -> char {
    if 'A' <= c <= 'Z' {
        (c as int - 'A' as int + 'a' as int) as char
    } else {
        c
    }
}

/// `text` with its ASCII letters in lower case.
pub open spec fn lower_case(text: Seq<char>) -> Seq<char> {
    text.map_values(|c: char| lower(c))
}

proof fn lemma_digit_of_value(c: char)
    requires
        digit_value(c) is Some,
    ensures
        0 <= digit_value(c)->0 < 16,
        digit(digit_value(c)->0) == lower(c),
{
}

/// Encoding a text that was decoded gives that text in lower case.
pub proof fn law_encode_of_decode(text: Seq<char>)
    requires
        decoded(text) is Some,
    ensures
        encoded(decoded(text)->0) == lower_case(text),
{
    let bytes = decoded(text)->0;
    assert forall|i: int| 0 <= i < text.len() implies #[trigger] encoded(bytes)[i] == lower(
        text[i],
    ) by {
        let k = i / 2;
        assert(digit_value(text[2 * k]) is Some);
        assert(digit_value(text[2 * k + 1]) is Some);
        lemma_digit_of_value(text[2 * k]);
        lemma_digit_of_value(text[2 * k + 1]);
        let high = digit_value(text[2 * k])->0;
        let low = digit_value(text[2 * k + 1])->0;
        assert(bytes[k] == 16 * high + low);
        assert(bytes[k] as int / 16 == high);
        assert(bytes[k] as int % 16 == low);
    }
    assert(encoded(bytes) =~= lower_case(text));
}

/// Decoding does not look at the case of letters: two texts that stand for bytes stand for the
/// same ones exactly where they are the same in lower case.
pub proof fn law_decode_ignores_case(left: Seq<char>, right: Seq<char>)
    requires
        decoded(left) is Some,
        decoded(right) is Some,
    ensures
        decoded(left) == decoded(right) <==> lower_case(left) == lower_case(right),
{
    law_encode_of_decode(left);
    law_encode_of_decode(right);
    law_decode_of_encode(decoded(left)->0);
    law_decode_of_encode(decoded(right)->0);
}

/// Bytes are encoded one after the other, in order.
pub proof fn law_encoding_joins(front: Seq<u8>, back: Seq<u8>)
    ensures
        encoded(front + back) == encoded(front) + encoded(back),
        encoded(Seq::empty()).len() == 0,
{
    let whole = encoded(front + back);
    assert forall|i: int| 0 <= i < whole.len() implies #[trigger] whole[i] == (encoded(front)
        + encoded(back))[i] by {
        if i < 2 * front.len() {
            assert((front + back)[i / 2] == front[i / 2]);
        } else {
            let k = i - 2 * front.len();
            assert(k / 2 == i / 2 - front.len());
            assert(k % 2 == i % 2);
            assert((front + back)[i / 2] == back[k / 2]);
        }
    }
    assert(whole =~= encoded(front) + encoded(back));
}

/// A byte is encoded as two of the sixteen digits, the one of its higher half first.
pub proof fn law_byte_is_two_digits(byte: u8)
    ensures
        encoded(seq![byte]) == seq![
            "0123456789abcdef"@[byte as int / 16],
            "0123456789abcdef"@[byte as int % 16],
        ],
{
    reveal_strlit("0123456789abcdef");
    assert(digit(byte as int / 16) == "0123456789abcdef"@[byte as int / 16]);
    assert(digit(byte as int % 16) == "0123456789abcdef"@[byte as int % 16]);
    assert(encoded(seq![byte]) =~= seq![digit(byte as int / 16), digit(byte as int % 16)]);
}

/// A text stands for bytes exactly where its length is even and every character is a digit or one
/// of the first six letters, in either case. There is one byte for every two characters.
pub proof fn law_what_stands_for_bytes(text: Seq<char>)
    ensures
        decoded(text) is Some <==> text.len() % 2 == 0 && forall|i: int|
            0 <= i < text.len() ==> '0' <= #[trigger] text[i] <= '9' || 'a' <= text[i] <= 'f' || 'A'
                <= text[i] <= 'F',
        decoded(text) matches Some(bytes) ==> 2 * bytes.len() == text.len(),
{
    if forall|i: int|
        0 <= i < text.len() ==> '0' <= #[trigger] text[i] <= '9' || 'a' <= text[i] <= 'f' || 'A'
            <= text[i] <= 'F' {
        assert(forall|i: int| 0 <= i < text.len() ==> digit_value(#[trigger] text[i]) is Some);
    }
}

} // verus!
