//! Hexadecimal text, the form in which keys are kept and handed over.

use vstd::prelude::*;

verus! {

/// The value of a hex digit, upper or lower case.
pub open spec fn spec_hex_digit(c: char) -> Option<u8> {
    let v = c as int;
    if 48 <= v <= 57 {
        Some((v - 48) as u8)
    } else if 65 <= v <= 70 {
        Some((v - 55) as u8)
    } else if 97 <= v <= 102 {
        Some((v - 87) as u8)
    } else {
        None
    }
}

/// The upper-case hex digit of a value below 16.
pub open spec fn spec_hex_upper_digit(v: int) -> char {
    if v < 10 {
        (48 + v) as char
    } else {
        (55 + v) as char
    }
}

/// Whether `s` is hex text: an even number of hex digits.
pub open spec fn spec_is_hex(s: Seq<char>) -> bool {
    s.len() % 2 == 0 && forall|i: int| 0 <= i < s.len() ==> spec_hex_digit(#[trigger] s[i]) is Some
}

/// The bytes that hex text stands for, two digits a byte, high digit first.
pub open spec fn spec_hex_decode(s: Seq<char>) -> Option<Seq<u8>> {
    if spec_is_hex(s) {
        Some(
            Seq::new(
                (s.len() / 2) as nat,
                |i: int| (16 * spec_hex_digit(s[2 * i])->0 + spec_hex_digit(s[2 * i + 1])->0) as u8,
            ),
        )
    } else {
        None
    }
}

/// The upper-case hex text of `bytes`.
pub open spec fn spec_hex_encode_upper(bytes: Seq<u8>) -> Seq<char> {
    Seq::new(
        2 * bytes.len(),
        |i: int|
            spec_hex_upper_digit(
                if i % 2 == 0 {
                    bytes[i / 2] as int / 16
                } else {
                    bytes[i / 2] as int % 16
                },
            ),
    )
}

/// Hex text decodes to the bytes it was made from.
pub proof fn lemma_hex_round_trip(bytes: Seq<u8>)
    ensures
        spec_hex_decode(spec_hex_encode_upper(bytes)) == Some(bytes),
{
    let text = spec_hex_encode_upper(bytes);
    assert forall|i: int| 0 <= i < text.len() implies spec_hex_digit(#[trigger] text[i])
        is Some by {
        let v = if i % 2 == 0 {
            bytes[i / 2] as int / 16
        } else {
            bytes[i / 2] as int % 16
        };
        assert(0 <= v < 16);
    }
    assert(spec_is_hex(text));
    let back = spec_hex_decode(text)->0;
    assert(back.len() == bytes.len());
    assert forall|i: int| 0 <= i < bytes.len() implies back[i] == bytes[i] by {
        let b = bytes[i] as int;
        assert((2 * i) / 2 == i && (2 * i + 1) / 2 == i);
        assert((2 * i) % 2 == 0 && (2 * i + 1) % 2 == 1);
        assert(text[2 * i] == spec_hex_upper_digit(b / 16));
        assert(text[2 * i + 1] == spec_hex_upper_digit(b % 16));
        assert(spec_hex_digit(spec_hex_upper_digit(b / 16)) == Some((b / 16) as u8));
        assert(spec_hex_digit(spec_hex_upper_digit(b % 16)) == Some((b % 16) as u8));
    }
    assert(back == bytes);
}

/// `hex::decode`: the bytes of hex text in either case, `None` for text of
/// odd length or with another character.
#[verifier::external_body]
pub(crate) fn hex_decode(text: &str) -> (res: Option<Vec<u8>>)
    ensures
        match res {
            Some(bytes) => spec_hex_decode(text@) == Some(bytes@),
            None => spec_hex_decode(text@) is None,
        },
{
    hex::decode(text).ok()
}

/// `hex::encode_upper`: two upper-case hex digits for each byte.
#[verifier::external_body]
pub(crate) fn hex_encode_upper(bytes: &[u8]) -> (res: String)
    ensures
        res@ == spec_hex_encode_upper(bytes@),
{
    hex::encode_upper(bytes)
}

} // verus!
