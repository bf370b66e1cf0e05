//! Percent-decoding: what it means, and the call that performs it.
//!
//! An escape is a percent sign followed by two hexadecimal digits and stands
//! for the byte with that value. Every byte that is not part of an escape,
//! a percent sign with anything else behind it included, stands for itself.

use vstd::prelude::*;
use vstd::utf8::*;

verus! {

/// The byte `%`.
pub const PERCENT: u8 = 0x25;

/// Whether `b` is an ASCII hexadecimal digit, in either case.
pub open spec fn is_hex_digit(b: u8) -> bool {
    ||| 0x30 <= b <= 0x39
    ||| 0x41 <= b <= 0x46
    ||| 0x61 <= b <= 0x66
}

/// The number that the hexadecimal digit `b` stands for.
pub open spec fn hex_value(b: u8) -> int
    recommends
        is_hex_digit(b),
{
    if b <= 0x39 {
        b - 0x30
    } else if b <= 0x46 {
        b - 0x41 + 10
    } else {
        b - 0x61 + 10
    }
}

/// Whether `bytes` begins with an escape.
pub open spec fn starts_with_escape(bytes: Seq<u8>) -> bool {
    &&& bytes.len() >= 3
    &&& bytes[0] == PERCENT
    &&& is_hex_digit(bytes[1])
    &&& is_hex_digit(bytes[2])
}

/// The byte that the escape at the head of `bytes` stands for.
pub open spec fn escaped_byte(bytes: Seq<u8>) -> u8
    recommends
        starts_with_escape(bytes),
{
    (16 * hex_value(bytes[1]) + hex_value(bytes[2])) as u8
}

/// `bytes` with every escape replaced by the byte it stands for, read from
/// left to right.
pub open spec fn percent_decoded(bytes: Seq<u8>) -> Seq<u8>
    decreases bytes.len(),
{
    if bytes.len() == 0 {
        Seq::empty()
    } else if starts_with_escape(bytes) {
        seq![escaped_byte(bytes)] + percent_decoded(bytes.skip(3))
    } else {
        seq![bytes[0]] + percent_decoded(bytes.skip(1))
    }
}

/// Whether no escape begins at any position of `bytes`.
pub open spec fn has_no_escape(bytes: Seq<u8>) -> bool {
    forall|i: int| 0 <= i < bytes.len() ==> !starts_with_escape(#[trigger] bytes.skip(i))
}

/// Bytes that hold no escape decode to themselves: a percent sign that is
/// not followed by two hexadecimal digits is kept as it is.
pub proof fn lemma_percent_decoded_without_escape(bytes: Seq<u8>)
    requires
        has_no_escape(bytes),
    ensures
        percent_decoded(bytes) == bytes,
    decreases bytes.len(),
{
    if bytes.len() > 0 {
        let rest = bytes.skip(1);
        assert(bytes.skip(0) =~= bytes);
        assert forall|i: int| 0 <= i < rest.len() implies !starts_with_escape(
            #[trigger] rest.skip(i),
        ) by {
            assert(rest.skip(i) =~= bytes.skip(i + 1));
        }
        lemma_percent_decoded_without_escape(rest);
        assert(seq![bytes[0]] + rest =~= bytes);
    }
}

/// Percent-decodes `input` and reads the outcome as UTF-8 text, by
/// `url::percent_encoding::percent_decode` and its `decode_utf8`.
///
/// Trusted: the call yields text exactly when the decoded bytes are
/// well-formed UTF-8, and the text is then what those bytes encode.
#[verifier::external_body]
pub(crate) fn percent_decode_utf8(input: &[u8]) -> (text: Option<String>)
    ensures
        text is Some <==> valid_utf8(percent_decoded(input@)),
        text matches Some(t) ==> t@ == decode_utf8(percent_decoded(input@)),
{
    match url::percent_encoding::percent_decode(input).decode_utf8() {
        Ok(text) => Some(text.into_owned()),
        Err(_) => None,
    }
}

} // verus!
