//! The encoder: writes one [`RESPType`] as framed RESP2 bytes.
//!
//! [`Serializer`] is a byte sink; each method appends one framed line (or
//! raw body) and its contract states the exact bytes appended, in terms of
//! the grammar of [`crate::wire`].  [`RESPType::serialize`] descends a value
//! recursively and appends exactly [`wire`] of its model;
//! [`to_string`] then turns the accumulated bytes into text.

use vstd::prelude::*;
use vstd::utf8::decode_utf8;
use vstd::utf8::encode_utf8;
use vstd::utf8::valid_utf8;

use crate::RESPType;
use crate::ValueModel;
use crate::error::Error;
use crate::lemma_models_of_props;
use crate::models_of;
use crate::roundtrip::lemma_dec_digits;
use crate::roundtrip::lemma_int_digits;
use crate::text::bytes_to_string;
use crate::text::lemma_ascii_valid_utf8;
use crate::text::lemma_valid_utf8_concat;
use crate::wire::crlf;
use crate::wire::dec_digits;
use crate::wire::int_digits;
use crate::wire::utf8_payloads;
use crate::wire::utf8_payloads_elems;
use crate::wire::wire;
use crate::wire::wire_elems;

verus! {

/// A byte sink that accumulates the frames written to it.
pub struct Serializer {
    out: Vec<u8>,
}

impl Serializer {
    /// The bytes written so far.
    pub closed spec fn bytes(self) -> Seq<u8> {
        self.out@
    }

    /// A serializer that has written nothing yet.
    pub fn new() -> (s: Serializer)
        ensures
            s.bytes() == Seq::<u8>::empty(),
    {
        Serializer { out: Vec::new() }
    }

    /// Hands out the accumulated bytes.
    pub fn into_bytes(self) -> (b: Vec<u8>)
        ensures
            b@ == self.bytes(),
    {
        self.out
    }

    /// Appends the line terminator.
    fn write_crlf(&mut self)
        ensures
            final(self).bytes() == old(self).bytes() + crlf(),
    {
        self.out.push(13);
        self.out.push(10);
        assert(self.bytes() =~= old(self).bytes() + crlf());
    }

    /// Appends the decimal digits of `n`, most significant first.
    fn write_uint(&mut self, n: u64)
        ensures
            final(self).bytes() == old(self).bytes() + dec_digits(n as nat),
        decreases n,
    {
        if n < 10 {
            self.out.push((48 + n) as u8);
            assert(self.bytes() =~= old(self).bytes() + dec_digits(n as nat));
        } else {
            self.write_uint(n / 10);
            self.out.push((48 + n % 10) as u8);
            assert(self.bytes() =~= old(self).bytes() + dec_digits(n as nat));
        }
    }

    /// Appends an integer frame: `:`, the signed decimal of `v`, `\r\n`.
    pub fn serialize_i64(&mut self, v: i64) -> (r: Result<(), Error>)
        ensures
            r is Ok,
            final(self).bytes() == old(self).bytes() + seq![58u8] + int_digits(v as int)
                + crlf(),
    {
        self.out.push(58);
        if v < 0 {
            self.out.push(45);
            let m: u64 = ((-(v + 1)) as u64) + 1;
            self.write_uint(m);
        } else {
            self.write_uint(v as u64);
        }
        self.write_crlf();
        assert(self.bytes() =~= old(self).bytes() + seq![58u8] + int_digits(v as int) + crlf());
        Ok(())
    }

    /// Appends a text line: the tag byte, the UTF-8 bytes of `v`, `\r\n`.
    pub fn serialize_str(&mut self, tag: u8, v: &str) -> (r: Result<(), Error>)
        ensures
            r is Ok,
            final(self).bytes() == old(self).bytes() + seq![tag] + encode_utf8(v@) + crlf(),
    {
        self.out.push(tag);
        let mut body = vstd::slice::slice_to_vec(v.as_bytes());
        self.out.append(&mut body);
        self.write_crlf();
        assert(self.bytes() =~= old(self).bytes() + seq![tag] + encode_utf8(v@) + crlf());
        Ok(())
    }

    /// Appends a bulk-string frame: `$`, the decimal length of `v`, `\r\n`,
    /// the raw bytes of `v`, `\r\n`.
    pub fn serialize_bytes(&mut self, v: &[u8]) -> (r: Result<(), Error>)
        ensures
            r is Ok,
            final(self).bytes() == old(self).bytes() + seq![36u8] + dec_digits(v@.len())
                + crlf() + v@ + crlf(),
    {
        self.out.push(36);
        self.write_uint(v.len() as u64);
        self.write_crlf();
        let mut body = vstd::slice::slice_to_vec(v);
        self.out.append(&mut body);
        self.write_crlf();
        assert(self.bytes() =~= old(self).bytes() + seq![36u8] + dec_digits(v@.len()) + crlf()
            + v@ + crlf());
        Ok(())
    }

    /// Appends the null-array frame `*-1\r\n`.
    pub fn serialize_none(&mut self) -> (r: Result<(), Error>)
        ensures
            r is Ok,
            final(self).bytes() == old(self).bytes() + seq![42u8, 45u8, 49u8, 13u8, 10u8],
    {
        self.out.push(42);
        self.out.push(45);
        self.out.push(49);
        self.write_crlf();
        assert(self.bytes() =~= old(self).bytes() + seq![42u8, 45u8, 49u8, 13u8, 10u8]);
        Ok(())
    }

    /// Appends the null-bulk-string frame `$-1\r\n`.
    pub fn serialize_unit(&mut self) -> (r: Result<(), Error>)
        ensures
            r is Ok,
            final(self).bytes() == old(self).bytes() + seq![36u8, 45u8, 49u8, 13u8, 10u8],
    {
        self.out.push(36);
        self.out.push(45);
        self.out.push(49);
        self.write_crlf();
        assert(self.bytes() =~= old(self).bytes() + seq![36u8, 45u8, 49u8, 13u8, 10u8]);
        Ok(())
    }

    /// Appends an array header: `*`, the decimal of `len`, `\r\n`.  The
    /// caller then appends the `len` element frames.
    pub fn serialize_seq(&mut self, len: usize) -> (r: Result<(), Error>)
        ensures
            r is Ok,
            final(self).bytes() == old(self).bytes() + seq![42u8] + dec_digits(len as nat)
                + crlf(),
    {
        self.out.push(42);
        self.write_uint(len as u64);
        self.write_crlf();
        assert(self.bytes() =~= old(self).bytes() + seq![42u8] + dec_digits(len as nat)
            + crlf());
        Ok(())
    }
}

impl RESPType {
    /// Writes the frame of this value to `ser`: exactly the bytes
    /// [`wire`]`(self.model())`, appended in one pass.
    #[verifier::loop_isolation(false)]
    pub fn serialize(&self, ser: &mut Serializer) -> (r: Result<(), Error>)
        ensures
            r is Ok,
            final(ser).bytes() == old(ser).bytes() + wire(self.model()),
        decreases *self,
    {
        match self {
            RESPType::SimpleString(s) => {
                let r = ser.serialize_str(43, s.as_str());
                assert(ser.bytes() =~= old(ser).bytes() + wire(self.model()));
                r
            },
            RESPType::Error(s) => {
                let r = ser.serialize_str(45, s.as_str());
                assert(ser.bytes() =~= old(ser).bytes() + wire(self.model()));
                r
            },
            RESPType::Integer(i) => {
                let r = ser.serialize_i64(*i);
                assert(ser.bytes() =~= old(ser).bytes() + wire(self.model()));
                r
            },
            RESPType::BulkString(Some(b)) => {
                let r = ser.serialize_bytes(b.as_slice());
                assert(ser.bytes() =~= old(ser).bytes() + wire(self.model()));
                r
            },
            RESPType::BulkString(None) => ser.serialize_unit(),
            RESPType::Array(Some(a)) => {
                proof {
                    lemma_models_of_props(a@, 0);
                }
                let ghost ms = models_of(a@, 0);
                let r = ser.serialize_seq(a.len());
                let ghost base = ser.bytes();
                let n = a.len();
                let mut i: usize = 0;
                while i < n
                    invariant
                        n == a@.len(),
                        0 <= i <= n,
                        ms == models_of(a@, 0),
                        ms.len() == n,
                        forall|j: int| 0 <= j < n ==> #[trigger] ms[j] == a@[j].model(),
                        base == old(ser).bytes() + seq![42u8] + dec_digits(n as nat) + crlf(),
                        ser.bytes() + wire_elems(ms, i as int) == base + wire_elems(ms, 0),
                    decreases n - i,
                {
                    let elem = &a[i];
                    let _ = elem.serialize(ser);
                    assert(ser.bytes() + wire_elems(ms, i + 1) =~= base + wire_elems(ms, 0));
                    i = i + 1;
                }
                assert(ser.bytes() =~= ser.bytes() + wire_elems(ms, n as int));
                assert(ser.bytes() =~= old(ser).bytes() + wire(self.model()));
                Ok(())
            },
            RESPType::Array(None) => ser.serialize_none(),
        }
    }
}

/// Encodes `value` as its complete RESP2 frame, returned as text.
///
/// Succeeds exactly when the frame is valid UTF-8; in particular it is
/// bound to succeed when every bulk-string payload of the value is itself
/// valid UTF-8 ([`lemma_wire_utf8`]).  A bulk string may carry arbitrary
/// bytes, and when its payload is not text the frame cannot be text either:
/// the call then fails with [`Error::FromUtf8`].
pub fn to_string(value: RESPType) -> (r: Result<String, Error>)
    ensures
        r is Ok <==> valid_utf8(wire(value.model())),
        utf8_payloads(value.model()) ==> r is Ok,
        r matches Ok(s) ==> s@ == decode_utf8(wire(value.model())) && encode_utf8(s@) == wire(
            value.model(),
        ),
        r matches Err(e) ==> e is FromUtf8,
{
    let mut ser = Serializer::new();
    let _ = value.serialize(&mut ser);
    proof {
        assert(ser.bytes() =~= wire(value.model()));
        if utf8_payloads(value.model()) {
            lemma_wire_utf8(value.model());
        }
    }
    match bytes_to_string(ser.into_bytes()) {
        Ok(s) => {
            proof {
                vstd::utf8::decode_utf8_encode_utf8(wire(value.model()));
            }
            Ok(s)
        },
        Err(msg) => Err(Error::FromUtf8(msg)),
    }
}


/// Every frame whose bulk-string payloads are valid UTF-8 is itself valid
/// UTF-8: tags, lengths and terminators are ASCII, and text lines are UTF-8
/// encodings by construction.  On such values [`to_string`] is bound to
/// succeed.
pub proof fn lemma_wire_utf8(m: ValueModel)
    requires
        utf8_payloads(m),
    ensures
        valid_utf8(wire(m)),
    decreases m, 0int,
{
    match m {
        ValueModel::SimpleString(t) => {
            vstd::utf8::encode_utf8_valid_utf8(t);
            lemma_ascii_valid_utf8(seq![43u8]);
            lemma_ascii_valid_utf8(crlf());
            lemma_valid_utf8_concat(seq![43u8], encode_utf8(t));
            lemma_valid_utf8_concat(seq![43u8] + encode_utf8(t), crlf());
        },
        ValueModel::Error(t) => {
            vstd::utf8::encode_utf8_valid_utf8(t);
            lemma_ascii_valid_utf8(seq![45u8]);
            lemma_ascii_valid_utf8(crlf());
            lemma_valid_utf8_concat(seq![45u8], encode_utf8(t));
            lemma_valid_utf8_concat(seq![45u8] + encode_utf8(t), crlf());
        },
        ValueModel::Integer(i) => {
            lemma_int_digits(i);
            let w = seq![58u8] + int_digits(i) + crlf();
            assert forall|j: int| 0 <= j < w.len() implies #[trigger] w[j] < 128 by {
                if 1 <= j < 1 + int_digits(i).len() {
                    assert(w[j] == int_digits(i)[j - 1]);
                }
            }
            lemma_ascii_valid_utf8(w);
        },
        ValueModel::BulkString(None) => {
            lemma_ascii_valid_utf8(seq![36u8, 45u8, 49u8, 13u8, 10u8]);
        },
        ValueModel::Array(None) => {
            lemma_ascii_valid_utf8(seq![42u8, 45u8, 49u8, 13u8, 10u8]);
        },
        ValueModel::BulkString(Some(p)) => {
            lemma_dec_digits(p.len());
            let header = seq![36u8] + dec_digits(p.len()) + crlf();
            assert forall|j: int| 0 <= j < header.len() implies #[trigger] header[j] < 128 by {
                if 1 <= j < 1 + dec_digits(p.len()).len() {
                    assert(header[j] == dec_digits(p.len())[j - 1]);
                }
            }
            lemma_ascii_valid_utf8(header);
            lemma_valid_utf8_concat(header, p);
            lemma_ascii_valid_utf8(crlf());
            lemma_valid_utf8_concat(header + p, crlf());
        },
        ValueModel::Array(Some(es)) => {
            lemma_dec_digits(es.len());
            let header = seq![42u8] + dec_digits(es.len()) + crlf();
            assert forall|j: int| 0 <= j < header.len() implies #[trigger] header[j] < 128 by {
                if 1 <= j < 1 + dec_digits(es.len()).len() {
                    assert(header[j] == dec_digits(es.len())[j - 1]);
                }
            }
            lemma_ascii_valid_utf8(header);
            lemma_wire_elems_utf8(es, 0);
            lemma_valid_utf8_concat(header, wire_elems(es, 0));
        },
    }
}

/// The concatenated frames of elements whose bulk-string payloads are valid
/// UTF-8 are valid UTF-8.
proof fn lemma_wire_elems_utf8(es: Seq<ValueModel>, i: int)
    requires
        0 <= i <= es.len(),
        utf8_payloads_elems(es, i),
    ensures
        valid_utf8(wire_elems(es, i)),
    decreases es, es.len() - i,
{
    if i < es.len() {
        lemma_wire_utf8(es[i]);
        lemma_wire_elems_utf8(es, i + 1);
        lemma_valid_utf8_concat(wire(es[i]), wire_elems(es, i + 1));
    }
}

} // verus!
