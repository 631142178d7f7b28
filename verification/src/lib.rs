//! A verified codec for RESP2, the REdis Serialization Protocol.
//!
//! A [`RESPType`] value is converted to and from its exact byte-level wire
//! representation.  The wire format is stated once, as the specification
//! function [`wire::wire`] over the mathematical model [`ValueModel`]; the
//! decoder is stated as the specification function [`de::parse_at`].  The
//! executable encoder and decoder are verified against those two functions,
//! which are proved to invert each other.

use vstd::prelude::*;

pub mod de;
pub mod error;
pub mod roundtrip;
pub mod ser;
pub mod text;
pub mod wire;

pub use de::Deserializer;
pub use de::from_buf_reader;
pub use de::from_string;
pub use error::Error;
pub use ser::Serializer;
pub use ser::to_string;

verus! {

/// A RESP2 value: one of the five RESP2 kinds.
///
/// `BulkString` and `Array` distinguish three states: absent (`None`, the
/// RESP null sentinel), present and empty, and present and non-empty.
/// Bulk-string payloads are binary safe; the texts of `SimpleString` and
/// `Error` must not contain the line terminator `\r\n` (a producer-side
/// invariant that the codec does not check).
#[derive(Debug, PartialOrd, PartialEq)]
pub enum RESPType {
    SimpleString(String),
    Error(String),
    Integer(i64),
    BulkString(Option<Vec<u8>>),
    Array(Option<Vec<RESPType>>),
}

/// The mathematical model of a [`RESPType`]: texts as character sequences,
/// payloads as byte sequences, integers as unbounded integers.
///
/// Contracts throughout the crate speak of values through this model, via
/// [`RESPType::deep_view`].
pub enum ValueModel {
    SimpleString(Seq<char>),
    Error(Seq<char>),
    Integer(int),
    BulkString(Option<Seq<u8>>),
    Array(Option<Seq<ValueModel>>),
}

impl RESPType {
    /// The model of this value: its payloads abstracted to sequences and
    /// unbounded integers.
    pub open spec fn model(self) -> ValueModel
        decreases self, 0int,
    {
        match self {
            RESPType::SimpleString(s) => ValueModel::SimpleString(s@),
            RESPType::Error(s) => ValueModel::Error(s@),
            RESPType::Integer(i) => ValueModel::Integer(i as int),
            RESPType::BulkString(None) => ValueModel::BulkString(None),
            RESPType::BulkString(Some(b)) => ValueModel::BulkString(Some(b@)),
            RESPType::Array(None) => ValueModel::Array(None),
            RESPType::Array(Some(a)) => ValueModel::Array(Some(models_of(a@, 0))),
        }
    }
}

/// The models of the elements of `a` from index `i` on, in order.
pub open spec fn models_of(a: Seq<RESPType>, i: int) -> Seq<ValueModel>
    decreases a, a.len() - i,
{
    if i < 0 || i >= a.len() {
        Seq::empty()
    } else {
        seq![a[i].model()] + models_of(a, i + 1)
    }
}

/// `models_of(a, i)` holds one model per element of `a` from `i` on, each at
/// its own offset.
pub proof fn lemma_models_of_props(a: Seq<RESPType>, i: int)
    requires
        0 <= i <= a.len(),
    ensures
        models_of(a, i).len() == a.len() - i,
        forall|j: int|
            0 <= j < a.len() - i ==> #[trigger] models_of(a, i)[j] == a[i + j].model(),
    decreases a.len() - i,
{
    if i < a.len() {
        lemma_models_of_props(a, i + 1);
    }
}

} // verus!
