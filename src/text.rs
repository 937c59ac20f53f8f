//! UTF-8 text: decoding bytes into strings, and facts about encoded text.

use vstd::prelude::*;
use vstd::utf8::*;

verus! {

/// Relies on `String::from_utf8`: it succeeds exactly when the bytes are well-formed UTF-8,
/// and the string then holds the characters those bytes encode.
#[verifier::external_body]
pub(crate) fn utf8_string(bytes: Vec<u8>) -> (r: Option<String>)
    ensures
        match r {
            Some(s) => valid_utf8(bytes@) && s@ == decode_utf8(bytes@),
            None => !valid_utf8(bytes@),
        },
{
    String::from_utf8(bytes).ok()
}


proof fn lemma_scalar_bytes_nonzero(s: u32)
    requires
        is_scalar(s),
        s != 0,
    ensures
        forall|i: int| 0 <= i < encode_scalar(s).len() ==> encode_scalar(s)[i] != 0,
{
    if has_width_1_encoding(s) {
        assert(leading_byte_width_1(s) != 0) by (bit_vector)
            requires 0 < s <= 0x7F;
    } else if has_width_2_encoding(s) {
        assert(leading_byte_width_2(s) != 0) by (bit_vector);
        assert(last_continuation_byte(s) != 0) by (bit_vector);
    } else if has_width_3_encoding(s) {
        assert(leading_byte_width_3(s) != 0) by (bit_vector);
        assert(second_last_continuation_byte(s) != 0) by (bit_vector);
        assert(last_continuation_byte(s) != 0) by (bit_vector);
    } else {
        assert(leading_byte_width_4(s) != 0) by (bit_vector);
        assert(third_last_continuation_byte(s) != 0) by (bit_vector);
        assert(second_last_continuation_byte(s) != 0) by (bit_vector);
        assert(last_continuation_byte(s) != 0) by (bit_vector);
    }
}

/// The text holds no NUL character.
pub open spec fn no_nul(t: Seq<char>) -> bool {
    forall|i: int| 0 <= i < t.len() ==> t[i] != '\0'
}

/// The UTF-8 encoding of text without NUL characters holds no zero byte.
pub proof fn lemma_encode_without_nul(chars: Seq<char>)
    requires
        no_nul(chars),
    ensures
        forall|i: int| 0 <= i < encode_utf8(chars).len() ==> encode_utf8(chars)[i] != 0,
    decreases chars.len(),
{
    if chars.len() > 0 {
        let rest = chars.drop_first();
        assert forall|i: int| 0 <= i < rest.len() implies rest[i] != '\0' by {
            assert(rest[i] == chars[i + 1]);
        }
        lemma_encode_without_nul(rest);
        let s = chars[0] as u32;
        char_is_scalar(chars[0]);
        if s == 0 {
            char_u32_cast(chars[0], s);
            char_u32_cast('\0', 0);
        }
        lemma_scalar_bytes_nonzero(s);
        let head = encode_scalar(s);
        assert(encode_utf8(chars) == head + encode_utf8(rest));
        assert forall|i: int| 0 <= i < encode_utf8(chars).len() implies encode_utf8(chars)[i] != 0 by {
            if i >= head.len() {
                assert(encode_utf8(chars)[i] == encode_utf8(rest)[i - head.len()]);
            }
        }
    }
}

} // verus!
