//! Request headers.

use vstd::prelude::*;

use axum::http::{HeaderMap, HeaderValue};

verus! {

/// The headers of a request.
#[verifier::external_type_specification]
#[verifier::external_body]
#[verifier::reject_recursive_types(T)]
pub struct ExHeaderMap<T>(axum::http::HeaderMap<T>);

/// The value of a header.
#[verifier::external_type_specification]
#[verifier::external_body]
pub struct ExHeaderValue(axum::http::HeaderValue);

/// The bytes of all values that some headers hold for a name, in order. A name
/// without a value is not in the map.
pub uninterp spec fn header_values(headers: HeaderMap<HeaderValue>) -> Map<
    Seq<char>,
    Seq<Seq<u8>>,
>;

/// `HeaderMap::get` gives the first of the values that are held for a name, and
/// nothing where there is none. What the values are is not said.
#[verifier::external_body]
pub(crate) fn first_value(headers: &HeaderMap<HeaderValue>, name: &str) -> (value: Option<
    Vec<u8>,
>)
    ensures
        value is Some <==> header_values(*headers).contains_key(name@),
        value matches Some(bytes) ==> {
            &&& header_values(*headers)[name@].len() > 0
            &&& bytes@ == header_values(*headers)[name@][0]
        },
{
    headers.get(name).map(|value| value.as_bytes().to_vec())
}

/// The first value for a name.
pub open spec fn value_of(headers: HeaderMap<HeaderValue>, name: Seq<char>) -> Option<Seq<u8>> {
    if header_values(headers).contains_key(name) {
        Some(header_values(headers)[name][0])
    } else {
        None
    }
}

/// Whether a byte may stand in a header that is read as text: a visible ASCII
/// character, a space or a tab.
pub open spec fn is_text_byte(b: u8) -> bool {
    32 <= b < 127 || b == 9
}

/// The text of a header value, where all its bytes are text.
pub open spec fn text_in(bytes: Seq<u8>) -> Option<Seq<char>> {
    if forall|i: int| 0 <= i < bytes.len() ==> is_text_byte(#[trigger] bytes[i]) {
        Some(Seq::new(bytes.len(), |i: int| bytes[i] as char))
    } else {
        None
    }
}

/// The text of a header that may be absent.
pub open spec fn header_text(value: Option<Seq<u8>>) -> Option<Seq<char>> {
    match value {
        Some(bytes) => text_in(bytes),
        None => None,
    }
}

/// The bytes of a value that may be absent.
pub open spec fn bytes_in(value: Option<Vec<u8>>) -> Option<Seq<u8>> {
    match value {
        Some(bytes) => Some(bytes@),
        None => None,
    }
}

/// Reads a header value as text.
pub fn read_text(bytes: &Vec<u8>) -> (text: Option<Vec<char>>)
    ensures
        text is Some <==> text_in(bytes@) is Some,
        text matches Some(chars) ==> text_in(bytes@) == Some(chars@),
{
    let mut chars: Vec<char> = Vec::with_capacity(bytes.len());
    let mut i: usize = 0;
    while i < bytes.len()
        invariant
            i <= bytes@.len(),
            chars@ == Seq::new(i as nat, |j: int| bytes@[j] as char),
            forall|j: int| 0 <= j < i ==> is_text_byte(#[trigger] bytes@[j]),
        decreases bytes@.len() - i,
    {
        let b: u8 = bytes[i];
        if !((32 <= b && b < 127) || b == 9) {
            assert(!is_text_byte(bytes@[i as int]));
            return None;
        }
        chars.push(b as char);
        i = i + 1;
        assert(chars@ =~= Seq::new(i as nat, |j: int| bytes@[j] as char));
    }
    Some(chars)
}

} // verus!
