//! The round-trip laws: the decoder inverts the encoder.
//!
//! [`lemma_round_trip`] states that decoding the frame of any well-formed
//! value yields exactly that value and consumes exactly its frame.  Both
//! directions of the round trip follow: `decode(encode(v)) == v` for every
//! well-formed `v`, and `encode(decode(b)) == b` for every `b` that the
//! encoder can produce.  The corollaries below state the binary safety of
//! bulk strings, the distinctness of the two null frames, and the
//! distinctness of the empty array from the null array.

use vstd::prelude::*;
use vstd::utf8::encode_utf8;

use crate::ValueModel;
use crate::de::ElemsResult;
use crate::de::ParseResult;
use crate::de::lemma_find_crlf_found;
use crate::de::parse_at;
use crate::de::parse_elems;
use crate::wire::all_digits;
use crate::wire::dec_digits;
use crate::wire::digits_val;
use crate::wire::int_digits;
use crate::wire::int_literal_val;
use crate::wire::is_digit;
use crate::wire::is_int_literal;
use crate::wire::line_ok;
use crate::wire::wf_elems;
use crate::wire::wf_model;
use crate::wire::wire;
use crate::wire::wire_elems;

verus! {

/// The canonical digit string of `n` is one or more digits whose value is
/// `n`.
pub proof fn lemma_dec_digits(n: nat)
    ensures
        all_digits(dec_digits(n)),
        dec_digits(n).len() >= 1,
        digits_val(dec_digits(n)) == n,
    decreases n,
{
    if n < 10 {
        assert(seq![(48 + n) as u8].drop_last() =~= Seq::<u8>::empty());
        assert(digits_val(Seq::<u8>::empty()) == 0);
        assert(digits_val(dec_digits(n)) == (48 + n) as u8 - 48);
    } else {
        lemma_dec_digits(n / 10);
        let a = dec_digits(n / 10);
        let d = (48 + n % 10) as u8;
        assert((a + seq![d]).drop_last() =~= a);
        assert((a + seq![d]).last() == d);
        assert(digits_val(a + seq![d]) == digits_val(a) * 10 + (n % 10));
        assert(n == n / 10 * 10 + n % 10);
    }
}

/// The canonical literal of `i` is a valid signed literal whose value is
/// `i`, made of digits and at most a leading `-`.
pub proof fn lemma_int_digits(i: int)
    ensures
        is_int_literal(int_digits(i)),
        int_literal_val(int_digits(i)) == i,
        forall|j: int|
            0 <= j < int_digits(i).len() ==> (#[trigger] int_digits(i)[j] == 45 || is_digit(
                int_digits(i)[j],
            )),
{
    if i < 0 {
        lemma_dec_digits((-i) as nat);
        let s = seq![45u8] + dec_digits((-i) as nat);
        assert(s.skip(1) =~= dec_digits((-i) as nat));
    } else {
        lemma_dec_digits(i as nat);
    }
}

/// No frame is empty.
proof fn lemma_wire_len_lb(m: ValueModel)
    ensures
        wire(m).len() >= 1,
{
    match m {
        ValueModel::SimpleString(_) => {},
        ValueModel::Error(_) => {},
        ValueModel::Integer(_) => {},
        ValueModel::BulkString(_) => {},
        ValueModel::Array(_) => {},
    }
}

/// Decoding at a position where the frame of a well-formed value `m` lies
/// embedded in `b` yields exactly `m` and stops exactly past its frame —
/// whatever bytes follow.
#[verifier::rlimit(80)]
pub proof fn lemma_parse_wire(m: ValueModel, b: Seq<u8>, pos: int)
    requires
        wf_model(m),
        0 <= pos,
        pos + wire(m).len() <= b.len(),
        b.subrange(pos, pos + wire(m).len()) == wire(m),
    ensures
        parse_at(b, pos) == ParseResult::Value(m, pos + wire(m).len()),
    decreases m, 0int,
{
    let w = wire(m);
    assert forall|j: int| pos <= j < pos + w.len() implies #[trigger] b[j] == w[j - pos] by {
        assert(b.subrange(pos, pos + w.len())[j - pos] == b[j]);
    }
    match m {
        ValueModel::SimpleString(_) => {
            lemma_parse_wire_text(m, b, pos);
        },
        ValueModel::Error(_) => {
            lemma_parse_wire_text(m, b, pos);
        },
        ValueModel::Integer(i) => {
            lemma_int_digits(i);
            let d = int_digits(i);
            let t = pos + 1 + d.len();
            assert forall|j: int| pos + 1 <= j < t implies !(#[trigger] b[j] == 13 && b[j + 1]
                == 10) by {
                assert(b[j] == w[j - pos]);
                assert(w[j - pos] == d[j - pos - 1]);
            }
            lemma_find_crlf_found(b, pos + 1, t);
            assert(b.subrange(pos + 1, t) =~= d);
        },
        ValueModel::BulkString(None) => {
            lemma_parse_wire_null(m, b, pos);
        },
        ValueModel::Array(None) => {
            lemma_parse_wire_null(m, b, pos);
        },
        ValueModel::BulkString(Some(p)) => {
            lemma_dec_digits(p.len());
            let dd = dec_digits(p.len());
            let t = pos + 1 + dd.len();
            assert forall|j: int| pos + 1 <= j < t implies !(#[trigger] b[j] == 13 && b[j + 1]
                == 10) by {
                assert(b[j] == w[j - pos]);
                assert(w[j - pos] == dd[j - pos - 1]);
            }
            lemma_find_crlf_found(b, pos + 1, t);
            assert(b.subrange(pos + 1, t) =~= dd);
            let n = p.len() as int;
            assert(b[t + 2 + n] == w[t + 2 + n - pos] && w[t + 2 + n - pos] == 13);
            assert(b[t + 2 + n + 1] == w[t + 2 + n + 1 - pos] && w[t + 2 + n + 1 - pos] == 10);
            assert(b.subrange(t + 2, t + 2 + n) =~= p);
        },
        ValueModel::Array(Some(es)) => {
            lemma_dec_digits(es.len());
            let dd = dec_digits(es.len());
            let t = pos + 1 + dd.len();
            assert forall|j: int| pos + 1 <= j < t implies !(#[trigger] b[j] == 13 && b[j + 1]
                == 10) by {
                assert(b[j] == w[j - pos]);
                assert(w[j - pos] == dd[j - pos - 1]);
            }
            lemma_find_crlf_found(b, pos + 1, t);
            assert(b.subrange(pos + 1, t) =~= dd);
            let rest = wire_elems(es, 0);
            assert(b.subrange(t + 2, t + 2 + rest.len()) =~= rest);
            lemma_parse_wire_elems(es, 0, b, t + 2);
            assert(es.skip(0) =~= es);
        },
    }
}

/// The text-line cases of [`lemma_parse_wire`]: simple strings and errors.
#[verifier::rlimit(80)]
proof fn lemma_parse_wire_text(m: ValueModel, b: Seq<u8>, pos: int)
    requires
        wf_model(m),
        m is SimpleString || m is Error,
        0 <= pos,
        pos + wire(m).len() <= b.len(),
        b.subrange(pos, pos + wire(m).len()) == wire(m),
    ensures
        parse_at(b, pos) == ParseResult::Value(m, pos + wire(m).len()),
{
    let w = wire(m);
    let txt = if m is SimpleString {
        m->SimpleString_0
    } else {
        m->Error_0
    };
    let e = encode_utf8(txt);
    assert forall|j: int| pos <= j < pos + w.len() implies #[trigger] b[j] == w[j - pos] by {
        assert(b.subrange(pos, pos + w.len())[j - pos] == b[j]);
    }
    let t = pos + 1 + e.len();
    assert(line_ok(e));
    assert forall|j: int| pos + 1 <= j < t implies !(#[trigger] b[j] == 13 && b[j + 1]
        == 10) by {
        assert(b[j] == w[j - pos]);
        assert(w[j - pos] == e[j - pos - 1]);
        if j < t - 1 {
            assert(w[j + 1 - pos] == e[j - pos]);
        } else {
            assert(w[j + 1 - pos] == 13);
        }
    }
    lemma_find_crlf_found(b, pos + 1, t);
    assert(b.subrange(pos + 1, t) =~= e);
    vstd::utf8::encode_utf8_valid_utf8(txt);
    vstd::utf8::encode_utf8_decode_utf8(txt);
}

/// The null cases of [`lemma_parse_wire`]: the frames `$-1\r\n` and
/// `*-1\r\n`.
proof fn lemma_parse_wire_null(m: ValueModel, b: Seq<u8>, pos: int)
    requires
        m == ValueModel::BulkString(None::<Seq<u8>>) || m == ValueModel::Array(
            None::<Seq<ValueModel>>,
        ),
        0 <= pos,
        pos + wire(m).len() <= b.len(),
        b.subrange(pos, pos + wire(m).len()) == wire(m),
    ensures
        parse_at(b, pos) == ParseResult::Value(m, pos + wire(m).len()),
{
    let w = wire(m);
    assert forall|j: int| pos <= j < pos + w.len() implies #[trigger] b[j] == w[j - pos] by {
        assert(b.subrange(pos, pos + w.len())[j - pos] == b[j]);
    }
    assert forall|j: int| pos + 1 <= j < pos + 3 implies !(#[trigger] b[j] == 13 && b[j + 1]
        == 10) by {
        assert(b[j] == w[j - pos]);
    }
    lemma_find_crlf_found(b, pos + 1, pos + 3);
    let line = b.subrange(pos + 1, pos + 3);
    assert(line =~= seq![45u8, 49u8]);
    assert(line.skip(1) =~= seq![49u8]);
    assert(seq![49u8].drop_last() =~= Seq::<u8>::empty());
    assert(digits_val(Seq::<u8>::empty()) == 0);
    assert(digits_val(seq![49u8]) == 1);
    assert(int_literal_val(line) == -1);
}

/// Decoding `es.len() - i` values where the frames of the elements of `es`
/// from `i` on lie embedded in `b` yields exactly those elements.
proof fn lemma_parse_wire_elems(es: Seq<ValueModel>, i: int, b: Seq<u8>, pos: int)
    requires
        0 <= i <= es.len(),
        wf_elems(es, i),
        0 <= pos,
        pos + wire_elems(es, i).len() <= b.len(),
        b.subrange(pos, pos + wire_elems(es, i).len()) == wire_elems(es, i),
    ensures
        parse_elems(b, pos, es.len() - i) == ElemsResult::Value(
            es.skip(i),
            pos + wire_elems(es, i).len(),
        ),
    decreases es, es.len() - i,
{
    let ww = wire_elems(es, i);
    assert forall|j: int| pos <= j < pos + ww.len() implies #[trigger] b[j] == ww[j - pos] by {
        assert(b.subrange(pos, pos + ww.len())[j - pos] == b[j]);
    }
    if i == es.len() {
        assert(es.skip(i) =~= Seq::<ValueModel>::empty());
    } else {
        let w1 = wire(es[i]);
        let w2 = wire_elems(es, i + 1);
        assert(ww == w1 + w2);
        assert(b.subrange(pos, pos + w1.len()) =~= w1);
        lemma_parse_wire(es[i], b, pos);
        lemma_wire_len_lb(es[i]);
        let p2 = pos + w1.len();
        assert(b.subrange(p2, p2 + w2.len()) =~= w2);
        lemma_parse_wire_elems(es, i + 1, b, p2);
        assert(seq![es[i]] + es.skip(i + 1) =~= es.skip(i));
    }
}

/// Round trip: the frame of any well-formed value decodes back to exactly
/// that value, consuming exactly the frame.  Hence `decode(encode(v)) == v`
/// for every well-formed value, and `encode(decode(b)) == b` for every
/// frame `b` that the encoder can produce.
pub proof fn lemma_round_trip(m: ValueModel)
    requires
        wf_model(m),
    ensures
        parse_at(wire(m), 0) == ParseResult::Value(m, wire(m).len() as int),
{
    assert(wire(m).subrange(0, wire(m).len() as int) =~= wire(m));
    lemma_parse_wire(m, wire(m), 0);
}

/// Binary safety: a bulk string round-trips whatever bytes its payload
/// holds — in particular a payload containing the terminator sequence —
/// because its framing is by length, not by terminator.
pub proof fn lemma_bulk_binary_safe(p: Seq<u8>)
    requires
        p.len() <= isize::MAX,
    ensures
        parse_at(wire(ValueModel::BulkString(Some(p))), 0) == ParseResult::Value(
            ValueModel::BulkString(Some(p)),
            wire(ValueModel::BulkString(Some(p))).len() as int,
        ),
{
    lemma_round_trip(ValueModel::BulkString(Some(p)));
}

/// Null distinction: the null bulk string and the null array have the two
/// distinct frames `$-1\r\n` and `*-1\r\n`, and each frame decodes back to
/// its own kind, never the other.
pub proof fn lemma_null_distinction()
    ensures
        wire(ValueModel::BulkString(None)) == seq![36u8, 45u8, 49u8, 13u8, 10u8],
        wire(ValueModel::Array(None)) == seq![42u8, 45u8, 49u8, 13u8, 10u8],
        wire(ValueModel::BulkString(None)) != wire(ValueModel::Array(None)),
        parse_at(wire(ValueModel::BulkString(None)), 0) == ParseResult::Value(
            ValueModel::BulkString(None),
            5,
        ),
        parse_at(wire(ValueModel::Array(None)), 0) == ParseResult::Value(
            ValueModel::Array(None),
            5,
        ),
{
    lemma_round_trip(ValueModel::BulkString(None));
    lemma_round_trip(ValueModel::Array(None));
    assert(wire(ValueModel::BulkString(None))[0] == 36);
    assert(wire(ValueModel::Array(None))[0] == 42);
}

/// Empty against null: the empty-but-present array has the frame `*0\r\n`,
/// which decodes back to the empty array — a value distinct from the null
/// array.
pub proof fn lemma_empty_vs_null_array()
    ensures
        wire(ValueModel::Array(Some(Seq::empty()))) == seq![42u8, 48u8, 13u8, 10u8],
        parse_at(seq![42u8, 48u8, 13u8, 10u8], 0) == ParseResult::Value(
            ValueModel::Array(Some(Seq::empty())),
            4,
        ),
        ValueModel::Array(Some(Seq::empty())) != ValueModel::Array(None::<Seq<ValueModel>>),
{
    lemma_round_trip(ValueModel::Array(Some(Seq::empty())));
    assert(wire(ValueModel::Array(Some(Seq::empty()))) =~= seq![42u8, 48u8, 13u8, 10u8]);
}

} // verus!
