//! The one trusted crossing between bytes and owned text.
//!
//! vstd specifies UTF-8 itself (`encode_utf8`, `decode_utf8`, `valid_utf8`)
//! and gives `str::as_bytes` a specification, so the encoder needs nothing
//! trusted here.  Decoding bytes into an owned `String` has no vstd
//! specification, so that one call is wrapped below.

use vstd::prelude::*;
use vstd::utf8::decode_utf8;
use vstd::utf8::is_leading_byte_width_1;
use vstd::utf8::length_of_first_codepoint;
use vstd::utf8::pop_first_scalar;
use vstd::utf8::valid_first_scalar;
use vstd::utf8::valid_leading_and_continuation_bytes_first_codepoint;
use vstd::utf8::valid_utf8;

verus! {

/// A sequence of bytes below 128 is valid UTF-8: each byte is the one-byte
/// encoding of its own code point.
pub proof fn lemma_ascii_valid_utf8(s: Seq<u8>)
    requires
        forall|i: int| 0 <= i < s.len() ==> #[trigger] s[i] < 128,
    ensures
        valid_utf8(s),
    decreases s.len(),
{
    if s.len() > 0 {
        assert(is_leading_byte_width_1(s[0]));
        assert(valid_leading_and_continuation_bytes_first_codepoint(s));
        assert(valid_first_scalar(s));
        assert(length_of_first_codepoint(s) == 1);
        let rest = s.subrange(1, s.len() as int);
        assert(pop_first_scalar(s) =~= rest);
        lemma_ascii_valid_utf8(rest);
    }
}

/// Valid UTF-8 is closed under concatenation.
pub proof fn lemma_valid_utf8_concat(a: Seq<u8>, b: Seq<u8>)
    requires
        valid_utf8(a),
        valid_utf8(b),
    ensures
        valid_utf8(a + b),
    decreases a.len(),
{
    if a.len() == 0 {
        assert(a + b =~= b);
    } else {
        let w = length_of_first_codepoint(a);
        assert(valid_leading_and_continuation_bytes_first_codepoint(a + b));
        assert(valid_first_scalar(a + b));
        assert(length_of_first_codepoint(a + b) == w);
        assert(pop_first_scalar(a + b) =~= pop_first_scalar(a) + b);
        lemma_valid_utf8_concat(pop_first_scalar(a), b);
    }
}

/// Relies on `String::from_utf8`: it returns the string whose UTF-8
/// encoding is `bytes` exactly when `bytes` is valid UTF-8, and an error
/// otherwise.  The error is reported as its description.
#[verifier::external_body]
pub(crate) fn bytes_to_string(bytes: Vec<u8>) -> (r: Result<String, String>)
    ensures
        r is Ok <==> valid_utf8(bytes@),
        r matches Ok(s) ==> s@ == decode_utf8(bytes@),
{
    match String::from_utf8(bytes) {
        Ok(s) => Ok(s),
        Err(e) => Err(format!("{:?}", e)),
    }
}

} // verus!
