//! The decoder: reads one complete [`RESPType`] from buffered bytes.
//!
//! What decoding means is stated by the specification function
//! [`parse_at`]: it consumes exactly the bytes of one frame, dispatching on
//! the one-byte tag, and classifies every failure as the input running out
//! ([`ParseResult::Eof`]), malformed framing ([`ParseResult::Syntax`]), or
//! text that is not UTF-8 ([`ParseResult::FromUtf8`]).  The executable
//! [`Deserializer`] is verified to return exactly what `parse_at` says.

use vstd::prelude::*;
use vstd::utf8::decode_utf8;
use vstd::utf8::encode_utf8;
use vstd::utf8::valid_utf8;

use crate::RESPType;
use crate::ValueModel;
use crate::error::Error;
use crate::lemma_models_of_props;
use crate::models_of;
use crate::text::bytes_to_string;
use crate::wire::all_digits;
use crate::wire::digits_val;
use crate::wire::int_literal_val;
use crate::wire::is_int_literal;
use crate::wire::lemma_digits_val_nonneg;

verus! {

/// What decoding one value from `b` yields: the value's model and the
/// position one past its frame, or the kind of failure.
pub enum ParseResult {
    /// A complete value and the position of the first byte after its frame.
    Value(ValueModel, int),
    /// The input ended before the frame was complete.
    Eof,
    /// The frame was malformed.
    Syntax,
    /// A text line was not valid UTF-8.
    FromUtf8,
}

/// What decoding a run of array elements yields: their models and the
/// position one past the last frame, or the kind of failure.
pub enum ElemsResult {
    Value(Seq<ValueModel>, int),
    Eof,
    Syntax,
    FromUtf8,
}

/// The position of the first `\r\n` at or after `from` in `b`, or `-1` if
/// there is none whole in `b`.
pub open spec fn find_crlf(b: Seq<u8>, from: int) -> int
    decreases b.len() - from,
{
    if from < 0 || from + 1 >= b.len() {
        -1
    } else if b[from] == 13 && b[from + 1] == 10 {
        from
    } else {
        find_crlf(b, from + 1)
    }
}

/// Decodes a text line starting at `pos` (the tag already consumed): the
/// bytes up to the next terminator, read as UTF-8.  `simple` selects
/// between the simple-string and the error kind.
pub open spec fn parse_text_line(b: Seq<u8>, pos: int, simple: bool) -> ParseResult {
    let t = find_crlf(b, pos);
    if t < pos || t + 1 >= b.len() {
        ParseResult::Eof
    } else {
        let line = b.subrange(pos, t);
        if !valid_utf8(line) {
            ParseResult::FromUtf8
        } else if simple {
            ParseResult::Value(ValueModel::SimpleString(decode_utf8(line)), t + 2)
        } else {
            ParseResult::Value(ValueModel::Error(decode_utf8(line)), t + 2)
        }
    }
}

/// Decodes an integer line starting at `pos` (the tag already consumed):
/// a signed base-10 literal that fits a 64-bit word; anything else is a
/// syntax error.
pub open spec fn parse_integer_line(b: Seq<u8>, pos: int) -> ParseResult {
    let t = find_crlf(b, pos);
    if t < pos || t + 1 >= b.len() {
        ParseResult::Eof
    } else {
        let line = b.subrange(pos, t);
        if is_int_literal(line) && i64::MIN <= int_literal_val(line) <= i64::MAX {
            ParseResult::Value(ValueModel::Integer(int_literal_val(line)), t + 2)
        } else {
            ParseResult::Syntax
        }
    }
}

/// Decodes a bulk string starting at `pos` (the tag already consumed): a
/// signed length line, then — unless the length is negative, which denotes
/// the null bulk string — exactly that many payload bytes and a closing
/// terminator.
pub open spec fn parse_bulk(b: Seq<u8>, pos: int) -> ParseResult {
    let t = find_crlf(b, pos);
    if t < pos || t + 1 >= b.len() {
        ParseResult::Eof
    } else {
        let line = b.subrange(pos, t);
        if !(is_int_literal(line) && isize::MIN <= int_literal_val(line) <= isize::MAX) {
            ParseResult::Syntax
        } else {
            let n = int_literal_val(line);
            if n < 0 {
                ParseResult::Value(ValueModel::BulkString(None), t + 2)
            } else if b.len() < t + 2 + n + 2 {
                ParseResult::Eof
            } else if b[t + 2 + n] == 13 && b[t + 2 + n + 1] == 10 {
                ParseResult::Value(
                    ValueModel::BulkString(Some(b.subrange(t + 2, t + 2 + n))),
                    t + 2 + n + 2,
                )
            } else {
                ParseResult::Syntax
            }
        }
    }
}

/// Decodes an array starting at `pos` (the tag already consumed): a signed
/// count line, then — unless the count is negative, which denotes the null
/// array — exactly that many complete nested values.
pub open spec fn parse_array(b: Seq<u8>, pos: int) -> ParseResult
    decreases b.len() - pos, 0int,
{
    let t = find_crlf(b, pos);
    if t < pos || t + 1 >= b.len() {
        ParseResult::Eof
    } else {
        let line = b.subrange(pos, t);
        if !(is_int_literal(line) && isize::MIN <= int_literal_val(line) <= isize::MAX) {
            ParseResult::Syntax
        } else {
            let n = int_literal_val(line);
            if n < 0 {
                ParseResult::Value(ValueModel::Array(None), t + 2)
            } else {
                match parse_elems(b, t + 2, n) {
                    ElemsResult::Value(es, end) => ParseResult::Value(
                        ValueModel::Array(Some(es)),
                        end,
                    ),
                    ElemsResult::Eof => ParseResult::Eof,
                    ElemsResult::Syntax => ParseResult::Syntax,
                    ElemsResult::FromUtf8 => ParseResult::FromUtf8,
                }
            }
        }
    }
}

/// Decodes `count` consecutive complete values starting at `pos`.
pub open spec fn parse_elems(b: Seq<u8>, pos: int, count: int) -> ElemsResult
    decreases b.len() - pos, count,
{
    if count <= 0 {
        ElemsResult::Value(Seq::empty(), pos)
    } else {
        match parse_at(b, pos) {
            ParseResult::Value(m, p) => if p <= pos || p > b.len() {
                // No frame is empty, so a decoded value always advances the
                // position; this branch is unreachable.
                ElemsResult::Syntax
            } else {
                match parse_elems(b, p, count - 1) {
                    ElemsResult::Value(rest, end) => ElemsResult::Value(seq![m] + rest, end),
                    e => e,
                }
            },
            ParseResult::Eof => ElemsResult::Eof,
            ParseResult::Syntax => ElemsResult::Syntax,
            ParseResult::FromUtf8 => ElemsResult::FromUtf8,
        }
    }
}

/// Decodes one complete value from `b` starting at `pos`: the tag byte
/// `+ - : $ *` selects the kind, any other leading byte is a syntax error,
/// and an exhausted input is an end-of-input failure.
pub open spec fn parse_at(b: Seq<u8>, pos: int) -> ParseResult
    decreases b.len() - pos, 0int,
{
    if pos < 0 || pos >= b.len() {
        ParseResult::Eof
    } else {
        let tag = b[pos];
        if tag == 43 {  // '+'
            parse_text_line(b, pos + 1, true)
        } else if tag == 45 {  // '-'
            parse_text_line(b, pos + 1, false)
        } else if tag == 58 {  // ':'
            parse_integer_line(b, pos + 1)
        } else if tag == 36 {  // '$'
            parse_bulk(b, pos + 1)
        } else if tag == 42 {  // '*'
            parse_array(b, pos + 1)
        } else {
            ParseResult::Syntax
        }
    }
}

/// Whether the error `e` is the one that the outcome `res` calls for.
pub open spec fn err_matches(res: ParseResult, e: Error) -> bool {
    match res {
        ParseResult::Value(_, _) => false,
        ParseResult::Eof => e is Eof,
        ParseResult::Syntax => e is Syntax,
        ParseResult::FromUtf8 => e is FromUtf8,
    }
}

/// `find_crlf` returns `t` when the terminator stands at `t` and nowhere
/// earlier.
pub(crate) proof fn lemma_find_crlf_found(b: Seq<u8>, from: int, t: int)
    requires
        0 <= from <= t,
        t + 1 < b.len(),
        b[t] == 13,
        b[t + 1] == 10,
        forall|j: int| from <= j < t ==> !(#[trigger] b[j] == 13 && b[j + 1] == 10),
    ensures
        find_crlf(b, from) == t,
    decreases t - from,
{
    if from < t {
        lemma_find_crlf_found(b, from + 1, t);
    }
}

/// `find_crlf` returns `-1` when no terminator stands at or after `from`.
pub(crate) proof fn lemma_find_crlf_none(b: Seq<u8>, from: int)
    requires
        0 <= from,
        forall|j: int| from <= j && j + 1 < b.len() ==> !(#[trigger] b[j] == 13 && b[j + 1] == 10),
    ensures
        find_crlf(b, from) == -1,
    decreases b.len() - from,
{
    if from + 1 < b.len() {
        lemma_find_crlf_none(b, from + 1);
    }
}

/// A decoder over a fully buffered input, with the position of the next
/// unread byte.  Decoding consumes exactly the bytes that belong to one
/// value, so one input can be decoded as a sequence of frames by repeated
/// calls.
pub struct Deserializer {
    input: Vec<u8>,
    pos: usize,
}

impl Deserializer {
    /// The buffered input bytes.
    pub closed spec fn bytes(self) -> Seq<u8> {
        self.input@
    }

    /// The position of the next unread byte.
    pub closed spec fn at(self) -> int {
        self.pos as int
    }

    /// Whether the position lies within the input.
    pub open spec fn wf(self) -> bool {
        0 <= self.at() <= self.bytes().len()
    }

    /// A decoder positioned at the start of the given buffered input.
    pub fn from_buf_reader(input: Vec<u8>) -> (d: Deserializer)
        ensures
            d.bytes() == input@,
            d.at() == 0,
            d.wf(),
    {
        Deserializer { input, pos: 0 }
    }

    /// Reads through the next terminator and hands back the line before it,
    /// consuming both.
    fn read_line(&mut self) -> (r: Result<Vec<u8>, Error>)
        requires
            old(self).wf(),
        ensures
            final(self).bytes() == old(self).bytes(),
            final(self).wf(),
            ({
                let t = find_crlf(old(self).bytes(), old(self).at());
                match r {
                    Ok(line) => old(self).at() <= t && t + 1 < old(self).bytes().len()
                        && line@ == old(self).bytes().subrange(old(self).at(), t)
                        && final(self).at() == t + 2,
                    Err(e) => e is Eof && t == -1 && final(self).at() == old(self).at(),
                }
            }),
    {
        let len = self.input.len();
        let mut i: usize = self.pos;
        while i < len && i + 1 < len
            invariant
                self == old(self),
                self.wf(),
                len == self.bytes().len(),
                old(self).at() <= i as int,
                i as int <= len as int,
                forall|j: int|
                    old(self).at() <= j < i as int ==> !(#[trigger] self.bytes()[j] == 13
                        && self.bytes()[j + 1] == 10),
            decreases len - i,
        {
            if self.input[i] == 13 && self.input[i + 1] == 10 {
                proof {
                    lemma_find_crlf_found(self.bytes(), self.at(), i as int);
                }
                let line_slice = vstd::slice::slice_subrange(self.input.as_slice(), self.pos, i);
                let line = vstd::slice::slice_to_vec(line_slice);
                self.pos = i + 2;
                return Ok(line);
            }
            i = i + 1;
        }
        proof {
            lemma_find_crlf_none(self.bytes(), self.at());
        }
        Err(Error::Eof)
    }

    /// Reads one integer line: the signed decimal length or count field of
    /// a bulk string or an array.
    pub fn parse_isize(&mut self) -> (r: Result<isize, Error>)
        requires
            old(self).wf(),
        ensures
            final(self).bytes() == old(self).bytes(),
            final(self).wf(),
            ({
                let t = find_crlf(old(self).bytes(), old(self).at());
                let line = old(self).bytes().subrange(old(self).at(), t);
                match r {
                    Ok(v) => old(self).at() <= t && t + 2 <= old(self).bytes().len()
                        && is_int_literal(line)
                        && isize::MIN <= int_literal_val(line) <= isize::MAX
                        && v as int == int_literal_val(line)
                        && final(self).at() == t + 2,
                    Err(e) => {
                        &&& (e is Eof || e is Syntax)
                        &&& (e is Eof ==> t == -1 && final(self).at() == old(self).at())
                        &&& (e is Syntax ==> old(self).at() <= t
                            && t + 2 <= old(self).bytes().len()
                            && !(is_int_literal(line)
                                && isize::MIN <= int_literal_val(line) <= isize::MAX)
                            && final(self).at() == t + 2)
                    },
                }
            }),
    {
        let line = match self.read_line() {
            Ok(l) => l,
            Err(e) => return Err(e),
        };
        match parse_literal_i64(&line) {
            Some(v) => {
                if isize::MIN as i64 <= v && v <= isize::MAX as i64 {
                    Ok(v as isize)
                } else {
                    Err(Error::Syntax)
                }
            },
            None => Err(Error::Syntax),
        }
    }

    /// Decodes a simple string, the `+` tag already consumed.
    fn deserialize_str(&mut self) -> (r: Result<RESPType, Error>)
        requires
            old(self).wf(),
        ensures
            final(self).bytes() == old(self).bytes(),
            final(self).wf(),
            match r {
                Ok(v) => parse_text_line(old(self).bytes(), old(self).at(), true)
                    == ParseResult::Value(v.model(), final(self).at())
                    && old(self).at() < final(self).at(),
                Err(e) => err_matches(parse_text_line(old(self).bytes(), old(self).at(), true), e),
            },
    {
        let line = match self.read_line() {
            Ok(l) => l,
            Err(e) => return Err(e),
        };
        match bytes_to_string(line) {
            Ok(s) => Ok(RESPType::SimpleString(s)),
            Err(m) => Err(Error::FromUtf8(m)),
        }
    }

    /// Decodes an error value, the `-` tag already consumed.
    fn deserialize_string(&mut self) -> (r: Result<RESPType, Error>)
        requires
            old(self).wf(),
        ensures
            final(self).bytes() == old(self).bytes(),
            final(self).wf(),
            match r {
                Ok(v) => parse_text_line(old(self).bytes(), old(self).at(), false)
                    == ParseResult::Value(v.model(), final(self).at())
                    && old(self).at() < final(self).at(),
                Err(e) => err_matches(parse_text_line(old(self).bytes(), old(self).at(), false), e),
            },
    {
        let line = match self.read_line() {
            Ok(l) => l,
            Err(e) => return Err(e),
        };
        match bytes_to_string(line) {
            Ok(s) => Ok(RESPType::Error(s)),
            Err(m) => Err(Error::FromUtf8(m)),
        }
    }

    /// Decodes an integer, the `:` tag already consumed.
    fn deserialize_i64(&mut self) -> (r: Result<RESPType, Error>)
        requires
            old(self).wf(),
        ensures
            final(self).bytes() == old(self).bytes(),
            final(self).wf(),
            match r {
                Ok(v) => parse_integer_line(old(self).bytes(), old(self).at())
                    == ParseResult::Value(v.model(), final(self).at())
                    && old(self).at() < final(self).at(),
                Err(e) => err_matches(parse_integer_line(old(self).bytes(), old(self).at()), e),
            },
    {
        let line = match self.read_line() {
            Ok(l) => l,
            Err(e) => return Err(e),
        };
        match parse_literal_i64(&line) {
            Some(v) => Ok(RESPType::Integer(v)),
            None => Err(Error::Syntax),
        }
    }

    /// Decodes a bulk string, the `$` tag already consumed: the length
    /// line, then the payload and its closing terminator; a negative length
    /// is the null bulk string.
    fn deserialize_byte_buf(&mut self) -> (r: Result<RESPType, Error>)
        requires
            old(self).wf(),
        ensures
            final(self).bytes() == old(self).bytes(),
            final(self).wf(),
            match r {
                Ok(v) => parse_bulk(old(self).bytes(), old(self).at())
                    == ParseResult::Value(v.model(), final(self).at())
                    && old(self).at() < final(self).at(),
                Err(e) => err_matches(parse_bulk(old(self).bytes(), old(self).at()), e),
            },
    {
        let size = match self.parse_isize() {
            Ok(s) => s,
            Err(e) => return Err(e),
        };
        if size < 0 {
            return Ok(RESPType::BulkString(None));
        }
        let n = size as usize;
        if self.input.len() - self.pos < n + 2 {
            return Err(Error::Eof);
        }
        if !(self.input[self.pos + n] == 13 && self.input[self.pos + n + 1] == 10) {
            return Err(Error::Syntax);
        }
        let payload_slice = vstd::slice::slice_subrange(
            self.input.as_slice(),
            self.pos,
            self.pos + n,
        );
        let payload = vstd::slice::slice_to_vec(payload_slice);
        self.pos = self.pos + n + 2;
        Ok(RESPType::BulkString(Some(payload)))
    }

    /// Decodes an array, the `*` tag already consumed: the count line, then
    /// that many complete nested values; a negative count is the null
    /// array.
    #[verifier::loop_isolation(false)]
    fn deserialize_seq(&mut self) -> (r: Result<RESPType, Error>)
        requires
            old(self).wf(),
        ensures
            final(self).bytes() == old(self).bytes(),
            final(self).wf(),
            match r {
                Ok(v) => parse_array(old(self).bytes(), old(self).at())
                    == ParseResult::Value(v.model(), final(self).at())
                    && old(self).at() < final(self).at(),
                Err(e) => err_matches(parse_array(old(self).bytes(), old(self).at()), e),
            },
        decreases old(self).bytes().len() - old(self).at(),
    {
        let count = match self.parse_isize() {
            Ok(c) => c,
            Err(e) => return Err(e),
        };
        if count < 0 {
            return Ok(RESPType::Array(None));
        }
        let n = count as usize;
        let ghost b = old(self).bytes();
        let ghost p_start = self.at();
        let mut elems: Vec<RESPType> = Vec::new();
        let mut k: usize = 0;
        while k < n
            invariant
                self.wf(),
                self.bytes() == b,
                p_start <= self.at(),
                k <= n,
                elems@.len() == k,
                parse_elems(b, p_start, n as int) == (match parse_elems(
                    b,
                    self.at(),
                    n - k,
                ) {
                    ElemsResult::Value(rest, end) => ElemsResult::Value(
                        models_of(elems@, 0) + rest,
                        end,
                    ),
                    e => e,
                }),
            decreases n - k,
        {
            let ghost at_k = self.at();
            let ghost ms_k = models_of(elems@, 0);
            let v = match self.deserialize_any() {
                Ok(v) => v,
                Err(e) => return Err(e),
            };
            proof {
                lemma_models_of_props(elems@, 0);
                lemma_models_of_props(elems@.push(v), 0);
                assert(models_of(elems@.push(v), 0) =~= ms_k + seq![v.model()]);
                assert(parse_elems(b, at_k, n - k) == (match parse_elems(
                    b,
                    self.at(),
                    n - k - 1,
                ) {
                    ElemsResult::Value(rest, end) => ElemsResult::Value(
                        seq![v.model()] + rest,
                        end,
                    ),
                    e => e,
                }));
            }
            elems.push(v);
            k = k + 1;
            proof {
                match parse_elems(b, self.at(), n - k) {
                    ElemsResult::Value(rest, end) => {
                        assert(models_of(elems@, 0) + rest =~= ms_k + (seq![v.model()]
                            + rest));
                    },
                    _ => {},
                }
            }
        }
        proof {
            assert(models_of(elems@, 0) + Seq::<ValueModel>::empty() =~= models_of(elems@, 0));
        }
        Ok(RESPType::Array(Some(elems)))
    }

    /// Decodes one complete value: the tag byte selects the kind, and the
    /// bytes of exactly one frame are consumed.  The result and the failure
    /// classification are exactly those of [`parse_at`].
    pub fn deserialize_any(&mut self) -> (r: Result<RESPType, Error>)
        requires
            old(self).wf(),
        ensures
            final(self).bytes() == old(self).bytes(),
            final(self).wf(),
            match r {
                Ok(v) => parse_at(old(self).bytes(), old(self).at())
                    == ParseResult::Value(v.model(), final(self).at())
                    && old(self).at() < final(self).at(),
                Err(e) => err_matches(parse_at(old(self).bytes(), old(self).at()), e),
            },
        decreases old(self).bytes().len() - old(self).at(),
    {
        if self.pos >= self.input.len() {
            return Err(Error::Eof);
        }
        let tag = self.input[self.pos];
        self.pos = self.pos + 1;
        if tag == 43 {
            self.deserialize_str()
        } else if tag == 45 {
            self.deserialize_string()
        } else if tag == 58 {
            self.deserialize_i64()
        } else if tag == 36 {
            self.deserialize_byte_buf()
        } else if tag == 42 {
            self.deserialize_seq()
        } else {
            Err(Error::Syntax)
        }
    }
}

/// Parses a signed base-10 literal that fits a signed 64-bit word; `None`
/// exactly when the bytes are not such a literal or its value does not fit.
fn parse_literal_i64(line: &Vec<u8>) -> (r: Option<i64>)
    ensures
        match r {
            Some(v) => is_int_literal(line@) && i64::MIN <= int_literal_val(line@) <= i64::MAX
                && v as int == int_literal_val(line@),
            None => !(is_int_literal(line@) && i64::MIN <= int_literal_val(line@)
                <= i64::MAX),
        },
{
    let len = line.len();
    if len == 0 {
        return None;
    }
    let neg = line[0] == 45;
    let start: usize = if neg {
        1
    } else {
        0
    };
    if len <= start {
        return None;
    }
    let ghost digits: Seq<u8> = if neg {
        line@.skip(1)
    } else {
        line@
    };
    let mut mag: u128 = 0;
    let mut over = false;
    let mut k: usize = start;
    while k < len
        invariant
            line@.len() == len,
            start <= k <= len,
            start as int == (if neg {
                1int
            } else {
                0int
            }),
            neg == (line@[0] == 45),
            start < len,
            digits == (if neg {
                line@.skip(1)
            } else {
                line@
            }),
            digits.len() == len - start,
            all_digits(digits.take(k - start)),
            !over ==> mag <= u64::MAX as u128 && mag as int == digits_val(
                digits.take(k - start),
            ),
            over ==> digits_val(digits.take(k - start)) > u64::MAX as int,
        decreases len - k,
    {
        let d = line[k];
        if d < 48 || d > 57 {
            proof {
                assert(digits[k - start] == line@[k as int]);
                assert(!all_digits(digits));
            }
            return None;
        }
        proof {
            assert(digits.take(k + 1 - start).drop_last() =~= digits.take(k - start));
            assert(digits.take(k + 1 - start).last() == line@[k as int]);
        }
        if !over {
            let nm: u128 = mag * 10 + ((d - 48) as u128);
            if nm > u64::MAX as u128 {
                over = true;
            } else {
                mag = nm;
            }
        } else {
            proof {
                lemma_digits_val_nonneg(digits.take(k - start));
            }
        }
        k = k + 1;
    }
    proof {
        assert(digits.take(len - start) =~= digits);
    }
    if over {
        return None;
    }
    if neg {
        if mag > (i64::MAX as u128) + 1 {
            None
        } else if mag == (i64::MAX as u128) + 1 {
            Some(i64::MIN)
        } else {
            Some(-(mag as i64))
        }
    } else {
        if mag > i64::MAX as u128 {
            None
        } else {
            Some(mag as i64)
        }
    }
}


/// Decodes one complete value from the start of the buffered input.
///
/// Exactly one frame is read; trailing bytes are ignored, so a stream of
/// frames can be decoded by holding a [`Deserializer`] instead and calling
/// [`Deserializer::deserialize_any`] repeatedly.
pub fn from_buf_reader(input: Vec<u8>) -> (r: Result<RESPType, Error>)
    ensures
        match r {
            Ok(v) => parse_at(input@, 0) matches ParseResult::Value(m, _) && m == v.model(),
            Err(e) => err_matches(parse_at(input@, 0), e),
        },
{
    let mut de = Deserializer::from_buf_reader(input);
    de.deserialize_any()
}

/// Decodes one complete value from the UTF-8 bytes of `s`.
pub fn from_string(s: String) -> (r: Result<RESPType, Error>)
    ensures
        match r {
            Ok(v) => parse_at(encode_utf8(s@), 0) matches ParseResult::Value(m, _) && m
                == v.model(),
            Err(e) => err_matches(parse_at(encode_utf8(s@), 0), e),
        },
{
    let bytes = vstd::slice::slice_to_vec(s.as_str().as_bytes());
    from_buf_reader(bytes)
}

} // verus!
