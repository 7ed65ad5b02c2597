//! A plain model of a decoded CBOR value, and the call into `ciborium` that
//! decodes one.
use vstd::prelude::*;
use ciborium::value::Value as V;

verus! {

/// A decoded CBOR data item, holding plain values only.
///
/// It mirrors `ciborium::value::Value` one variant for one. A float is kept
/// as the two texts under which it is shown (six decimals, and the shortest
/// round-trip form), since the library holds no floating-point numbers.
#[derive(Debug)]
pub enum CborValue {
    Integer(i128),
    Bytes(Vec<u8>),
    Float(String, String),
    Text(String),
    Bool(bool),
    Null,
    Tag(u64, Box<CborValue>),
    Array(Vec<CborValue>),
    Mapping(Vec<(CborValue, CborValue)>),
}

/// `ciborium::value::Value`, the value that `ciborium` decodes; opaque here.
#[verifier::external_type_specification]
#[verifier::external_body]
pub struct ExCiboriumValue(ciborium::value::Value);

/// What `ciborium::from_reader` makes of a byte sequence when asked for a
/// `ciborium::value::Value`, converted to a `CborValue`; `None` when it
/// reports an error.
pub uninterp spec fn ciborium_value(bytes: Seq<u8>) -> Option<CborValue>;

/// Decodes one CBOR data item from the start of `bytes` with
/// `ciborium::from_reader`.
///
/// Trusted: the result is whatever ciborium decodes from these bytes, which
/// depends on the bytes alone; nothing more is claimed of it.
#[verifier::external_body]
pub(crate) fn decode_value(bytes: &[u8]) -> (r: Option<CborValue>)
    ensures
        r == ciborium_value(bytes@),
{
    match ciborium::from_reader::<V, _>(std::io::Cursor::new(bytes)) {
        Ok(v) => Some(convert_value(v)),
        Err(_) => None,
    }
}

/// Converts a `ciborium::value::Value` into a `CborValue`, variant for
/// variant; part of the conversion done by `decode_value`.
#[verifier::external_body]
fn convert_value(v: V) -> CborValue {
    match v {
        V::Integer(i) => CborValue::Integer(i128::from(i)),
        V::Bytes(b) => CborValue::Bytes(b),
        V::Float(f) => CborValue::Float(format!("{:.6}", f), format!("{}", f)),
        V::Text(s) => CborValue::Text(s),
        V::Bool(b) => CborValue::Bool(b),
        V::Tag(t, b) => CborValue::Tag(t, Box::new(convert_value(*b))),
        V::Array(a) => CborValue::Array(a.into_iter().map(convert_value).collect()),
        V::Map(m) => CborValue::Mapping(m.into_iter().map(|(k, x)| (convert_value(k), convert_value(x))).collect()),
        _ => CborValue::Null,
    }
}

} // verus!
