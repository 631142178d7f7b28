//! The RESP2 wire grammar, stated as specification functions.
//!
//! Every encoded value begins with a single ASCII tag byte selecting its
//! kind, and every line ends with the two-byte terminator `\r\n`.  The
//! function [`wire`] maps a [`ValueModel`] to the exact byte sequence of its
//! frame; it is the single source of truth that both the encoder and the
//! decoder are held to.

use vstd::prelude::*;
use vstd::utf8::encode_utf8;
use vstd::utf8::valid_utf8;

use crate::ValueModel;

verus! {

/// The two-byte line terminator `\r\n`.
pub open spec fn crlf() -> Seq<u8> {
    seq![13u8, 10u8]
}

/// Whether `b` is an ASCII decimal digit.
pub open spec fn is_digit(b: u8) -> bool {
    48 <= b <= 57
}

/// Whether every byte of `s` is an ASCII decimal digit.
pub open spec fn all_digits(s: Seq<u8>) -> bool {
    forall|i: int| 0 <= i < s.len() ==> is_digit(#[trigger] s[i])
}

/// The value of the digit string `s`, read in base 10.
pub open spec fn digits_val(s: Seq<u8>) -> int
    decreases s.len(),
{
    if s.len() == 0 {
        0
    } else {
        digits_val(s.drop_last()) * 10 + (s.last() - 48)
    }
}

/// Whether `s` is a signed base-10 integer literal: an optional leading `-`
/// followed by one or more ASCII digits.  A leading `+`, whitespace, or any
/// other byte is not accepted.
pub open spec fn is_int_literal(s: Seq<u8>) -> bool {
    if s.len() > 0 && s[0] == 45 {
        s.len() > 1 && all_digits(s.skip(1))
    } else {
        s.len() > 0 && all_digits(s)
    }
}

/// The value of the integer literal `s`.
pub open spec fn int_literal_val(s: Seq<u8>) -> int
    recommends
        is_int_literal(s),
{
    if s.len() > 0 && s[0] == 45 {
        -digits_val(s.skip(1))
    } else {
        digits_val(s)
    }
}

/// The canonical base-10 digit string of `n`: no sign, no leading zeros
/// (except for `n == 0` itself).
pub open spec fn dec_digits(n: nat) -> Seq<u8>
    decreases n,
{
    if n < 10 {
        seq![(48 + n) as u8]
    } else {
        dec_digits(n / 10) + seq![(48 + n % 10) as u8]
    }
}

/// The canonical signed base-10 literal of `i`: a leading `-` when `i` is
/// negative, then the digits of its magnitude.
pub open spec fn int_digits(i: int) -> Seq<u8> {
    if i < 0 {
        seq![45u8] + dec_digits((-i) as nat)
    } else {
        dec_digits(i as nat)
    }
}

/// Whether `s` is free of the line terminator: no `\r` immediately followed
/// by `\n`.  The text of a line must satisfy this for its frame to be read
/// back intact.
pub open spec fn line_ok(s: Seq<u8>) -> bool {
    forall|i: int| 0 <= i && i + 1 < s.len() ==> !(#[trigger] s[i] == 13 && s[i + 1] == 10)
}

/// The exact wire bytes of the value `m`.
///
/// - `SimpleString(t)`: `+`, the UTF-8 bytes of `t`, `\r\n`.
/// - `Error(t)`: `-`, the UTF-8 bytes of `t`, `\r\n`.
/// - `Integer(i)`: `:`, the signed decimal of `i`, `\r\n`.
/// - `BulkString(Some(b))`: `$`, the decimal length of `b`, `\r\n`, the raw
///   bytes of `b`, `\r\n`.
/// - `BulkString(None)`: the literal frame `$-1\r\n`.
/// - `Array(Some(es))`: `*`, the decimal count of `es`, `\r\n`, then the
///   frames of the elements in order.
/// - `Array(None)`: the literal frame `*-1\r\n`.
pub open spec fn wire(m: ValueModel) -> Seq<u8>
    decreases m, 0int,
{
    match m {
        ValueModel::SimpleString(t) => seq![43u8] + encode_utf8(t) + crlf(),
        ValueModel::Error(t) => seq![45u8] + encode_utf8(t) + crlf(),
        ValueModel::Integer(i) => seq![58u8] + int_digits(i) + crlf(),
        ValueModel::BulkString(None) => seq![36u8, 45u8, 49u8, 13u8, 10u8],
        ValueModel::BulkString(Some(b)) => seq![36u8] + dec_digits(b.len()) + crlf() + b + crlf(),
        ValueModel::Array(None) => seq![42u8, 45u8, 49u8, 13u8, 10u8],
        ValueModel::Array(Some(es)) => seq![42u8] + dec_digits(es.len()) + crlf() + wire_elems(
            es,
            0,
        ),
    }
}

/// The concatenated wire bytes of the elements of `es` from index `i` on.
pub open spec fn wire_elems(es: Seq<ValueModel>, i: int) -> Seq<u8>
    decreases es, es.len() - i,
{
    if i < 0 || i >= es.len() {
        Seq::empty()
    } else {
        wire(es[i]) + wire_elems(es, i + 1)
    }
}

/// Whether `m` is well formed: the texts of its lines are free of the
/// terminator (the producer-side invariant of §3 of the wire grammar), its
/// integers fit a signed 64-bit word, and its lengths and counts fit the
/// signed length field.  Every frame of a well-formed value decodes back to
/// exactly that value.
pub open spec fn wf_model(m: ValueModel) -> bool
    decreases m, 0int,
{
    match m {
        ValueModel::SimpleString(t) => line_ok(encode_utf8(t)),
        ValueModel::Error(t) => line_ok(encode_utf8(t)),
        ValueModel::Integer(i) => i64::MIN <= i <= i64::MAX,
        ValueModel::BulkString(None) => true,
        ValueModel::BulkString(Some(b)) => b.len() <= isize::MAX,
        ValueModel::Array(None) => true,
        ValueModel::Array(Some(es)) => es.len() <= isize::MAX && wf_elems(es, 0),
    }
}

/// Whether every element of `es` from index `i` on is well formed.
pub open spec fn wf_elems(es: Seq<ValueModel>, i: int) -> bool
    decreases es, es.len() - i,
{
    if i < 0 || i >= es.len() {
        true
    } else {
        wf_model(es[i]) && wf_elems(es, i + 1)
    }
}

/// Whether every bulk-string payload inside `m` is valid UTF-8.  The rest
/// of a frame is ASCII text or UTF-8-encoded text, so this is exactly the
/// condition under which the whole frame is valid UTF-8.
pub open spec fn utf8_payloads(m: ValueModel) -> bool
    decreases m, 0int,
{
    match m {
        ValueModel::BulkString(Some(b)) => valid_utf8(b),
        ValueModel::Array(Some(es)) => utf8_payloads_elems(es, 0),
        _ => true,
    }
}

/// Whether every bulk-string payload inside the elements of `es` from index
/// `i` on is valid UTF-8.
pub open spec fn utf8_payloads_elems(es: Seq<ValueModel>, i: int) -> bool
    decreases es, es.len() - i,
{
    if i < 0 || i >= es.len() {
        true
    } else {
        utf8_payloads(es[i]) && utf8_payloads_elems(es, i + 1)
    }
}

/// The value of a digit string is never negative.
pub proof fn lemma_digits_val_nonneg(s: Seq<u8>)
    requires
        all_digits(s),
    ensures
        digits_val(s) >= 0,
    decreases s.len(),
{
    if s.len() > 0 {
        assert(all_digits(s.drop_last()));
        lemma_digits_val_nonneg(s.drop_last());
    }
}

} // verus!
