//! Decoding bytes as text.

use vstd::prelude::*;
use vstd::string::*;
use vstd::utf8::*;

verus! {

/// The error of `core::str::from_utf8`; nothing is read from it.
#[verifier::external_type_specification]
#[verifier::external_body]
pub struct ExUtf8Error(core::str::Utf8Error);

/// `core::str::from_utf8` succeeds exactly on the byte sequences that are
/// well-formed UTF-8, and the string slice it then returns has these very
/// bytes as its encoding.
pub assume_specification[ core::str::from_utf8 ](v: &[u8]) -> (res: Result<
    &str,
    core::str::Utf8Error,
>)
    ensures
        res is Ok <==> valid_utf8(v@),
        res matches Ok(text) ==> text.spec_bytes() == v@,
;

/// The text that `bytes` encode, or `None` where they are not well-formed
/// UTF-8.
pub fn decode(bytes: &[u8]) -> (text: Option<&str>)
    ensures
        text is Some <==> valid_utf8(bytes@),
        text matches Some(t) ==> t@ == decode_utf8(bytes@),
{
    match core::str::from_utf8(bytes) {
        Ok(t) => {
            proof {
                encode_utf8_decode_utf8(t@);
            }
            Some(t)
        },
        Err(_) => None,
    }
}

/// In well-formed UTF-8 a last byte below 0x80 is the whole encoding of the
/// last character, and any other last byte ends the encoding of a character
/// beyond ASCII.
pub proof fn lemma_last_byte_and_last_char(bytes: Seq<u8>)
    requires
        valid_utf8(bytes),
        bytes.len() > 0,
    ensures
        decode_utf8(bytes).len() > 0,
        bytes.last() < 0x80 ==> decode_utf8(bytes).last() as u32 == bytes.last() as u32,
        bytes.last() >= 0x80 ==> decode_utf8(bytes).last() as u32 >= 0x80,
    decreases bytes.len(),
{
    let rest = pop_first_scalar(bytes);
    let first = decode_first_scalar(bytes);
    let width = length_of_first_scalar(bytes);
    assert(decode_utf8(bytes) == seq![first as char] + decode_utf8(rest));
    if rest.len() > 0 {
        lemma_last_byte_and_last_char(rest);
        assert(rest.last() == bytes.last());
    } else {
        assert(bytes.len() == width);
        assert(decode_utf8(rest).len() == 0);
        assert(decode_utf8(bytes).last() == first as char);
        if width == 1 {
            let byte = bytes[0];
            assert((byte & 0x7f) as u32 == byte as u32) by (bit_vector)
                requires
                    byte <= 0x7f,
            ;
        } else {
            assert(is_continuation_byte(bytes.last()));
            assert(0x80 <= first <= 0x10ffff) by {
                let (b1, b2) = (bytes[0], bytes[1]);
                if width == 2 {
                    assert(((b1 & 0x1f) as u32) << 6 | (b2 & 0x3f) as u32 <= 0x7ff)
                        by (bit_vector);
                } else if width == 3 {
                    let b3 = bytes[2];
                    assert(((b1 & 0x0f) as u32) << 12 | ((b2 & 0x3f) as u32) << 6 | (b3
                        & 0x3f) as u32 <= 0xffff) by (bit_vector);
                }
            }
            assert((first as char) as u32 == first);
        }
    }
}

} // verus!
