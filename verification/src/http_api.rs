//! The types and functions of the `http` crate that the adapter relies on.
//!
//! Nothing in this file is proved: each contract restates what the `http`
//! crate does.

use crate::fields::{extended, names_held, values_named, Field};
use crate::grammar::{
    is_header_name, is_header_value, is_method, is_text, lower_name, text_bytes,
};
use vstd::prelude::*;

verus! {

/// `http::HeaderName`: a header name. What it holds is known by
/// `header_name_text` alone.
#[verifier::external_type_specification]
#[verifier::external_body]
pub struct ExHeaderName(http::HeaderName);

/// `http::HeaderValue`: a header value. What it holds is known by
/// `header_value_bytes` alone.
#[verifier::external_type_specification]
#[verifier::external_body]
pub struct ExHeaderValue(http::HeaderValue);

/// `http::HeaderMap`: a multimap from header names to values. What it holds
/// is known by `header_fields` alone.
#[verifier::external_type_specification]
#[verifier::external_body]
#[verifier::reject_recursive_types(T)]
pub struct ExHeaderMap<T>(http::HeaderMap<T>);

/// `http::Method`: a parsed method. Nothing is known of it.
#[verifier::external_type_specification]
#[verifier::external_body]
pub struct ExMethod(http::Method);

/// `http::Uri`: a parsed URI. Nothing is known of it.
#[verifier::external_type_specification]
#[verifier::external_body]
pub struct ExUri(http::Uri);

/// `http::header::InvalidHeaderName`: the error of parsing a header name.
#[verifier::external_type_specification]
#[verifier::external_body]
pub struct ExInvalidHeaderName(http::header::InvalidHeaderName);

/// `http::header::InvalidHeaderValue`: the error of parsing a header value.
#[verifier::external_type_specification]
#[verifier::external_body]
pub struct ExInvalidHeaderValue(http::header::InvalidHeaderValue);

/// `http::header::ToStrError`: the error of writing a header value out as
/// text.
#[verifier::external_type_specification]
#[verifier::external_body]
pub struct ExToStrError(http::header::ToStrError);

/// `http::header::MaxSizeReached`: the error of a header map that takes no
/// more.
#[verifier::external_type_specification]
#[verifier::external_body]
pub struct ExMaxSizeReached(http::header::MaxSizeReached);

/// `http::method::InvalidMethod`: the error of parsing a method.
#[verifier::external_type_specification]
#[verifier::external_body]
pub struct ExInvalidMethod(http::method::InvalidMethod);

/// `http::uri::InvalidUri`: the error of parsing a URI.
#[verifier::external_type_specification]
#[verifier::external_body]
pub struct ExInvalidUri(http::uri::InvalidUri);

/// The text of a header name, as `HeaderName::as_str` returns it.
pub uninterp spec fn header_name_text(name: http::HeaderName) -> Seq<char>;

/// The bytes of a header value, as `HeaderValue::as_bytes` returns them.
pub uninterp spec fn header_value_bytes(value: http::HeaderValue) -> Seq<u8>;

/// The fields of a header map, each a name with one value, in the order in
/// which `HeaderMap::iter` yields them.
pub uninterp spec fn header_fields(map: http::HeaderMap<http::HeaderValue>) -> Seq<Field>;

/// Whether the `http` crate takes `url` for a URI, as `Uri::from_str` decides
/// it.
pub uninterp spec fn uri_accepted(url: Seq<char>) -> bool;

/// `HeaderName::from_str`: accepts exactly the header names, and keeps an
/// accepted name in lower case.
#[verifier::external_body]
pub(crate) fn parse_header_name(text: &str) -> (parsed: Result<
    http::HeaderName,
    http::header::InvalidHeaderName,
>)
    ensures
        parsed is Ok <==> is_header_name(text@),
        parsed matches Ok(name) ==> header_name_text(name) == lower_name(text@),
{
    text.parse::<http::HeaderName>()
}

/// `HeaderValue::from_str`: accepts the text exactly if each of its bytes may
/// stand in a header value, and keeps those bytes.
#[verifier::external_body]
pub(crate) fn parse_header_value(text: &str) -> (parsed: Result<
    http::HeaderValue,
    http::header::InvalidHeaderValue,
>)
    ensures
        parsed is Ok <==> is_header_value(text_bytes(text@)),
        parsed matches Ok(value) ==> header_value_bytes(value) == text_bytes(text@),
{
    http::HeaderValue::from_str(text)
}

/// `HeaderName::as_str`: the text of the name.
#[verifier::external_body]
pub(crate) fn header_name_str(name: &http::HeaderName) -> (text: &str)
    ensures
        text@ == header_name_text(*name),
{
    name.as_str()
}

/// `HeaderValue::to_str`: succeeds exactly if every byte of the value is a
/// tab or printable ASCII, and then gives those bytes as text.
#[verifier::external_body]
pub(crate) fn header_value_str(value: &http::HeaderValue) -> (text: Result<
    &str,
    http::header::ToStrError,
>)
    ensures
        text is Ok <==> is_text(header_value_bytes(*value)),
        text matches Ok(t) ==> text_bytes(t@) == header_value_bytes(*value),
{
    value.to_str()
}

/// `HeaderMap::new`: a map without fields.
#[verifier::external_body]
pub(crate) fn new_header_map() -> (map: http::HeaderMap<http::HeaderValue>)
    ensures
        header_fields(map) == Seq::<Field>::empty(),
{
    http::HeaderMap::new()
}

/// The number of names below which a header map never refuses a field.
///
/// A `HeaderMap` keeps an index table that is empty or has a power of two of
/// slots, at most 32768. `HeaderMap::try_append` fails only when that table
/// would have to double past 32768 slots, or when 32768 names are held. The
/// table doubles when the names fill three quarters of it, or, once many
/// names have collided, when five times the names reach its size. The
/// second is the earlier: it needs 6554 names.
pub open spec fn sure_names() -> nat {
    6554
}

/// `HeaderMap::try_append`: on success the value has become the last one
/// under its name and no other name has changed; the flag tells whether the
/// name was there before. The call fails only on a map that holds at least
/// `sure_names()` names.
#[verifier::external_body]
pub(crate) fn append_header(
    map: &mut http::HeaderMap<http::HeaderValue>,
    name: &http::HeaderName,
    value: http::HeaderValue,
) -> (appended: Result<bool, http::header::MaxSizeReached>)
    ensures
        appended matches Ok(present) ==> {
            &&& present == (values_named(header_fields(*old(map)), header_name_text(*name)).len()
                > 0)
            &&& extended(
                header_fields(*old(map)),
                header_fields(*final(map)),
                header_name_text(*name),
                seq![header_value_bytes(value)],
            )
        },
        appended is Err ==> names_held(header_fields(*old(map))) >= sure_names(),
{
    map.try_append(name, value)
}

/// `HeaderMap::iter`: every field of the map, in order, as a name and a
/// value of its own.
#[verifier::external_body]
pub(crate) fn header_map_fields(map: &http::HeaderMap<http::HeaderValue>) -> (fields: Vec<
    (http::HeaderName, http::HeaderValue),
>)
    ensures
        fields@.len() == header_fields(*map).len(),
        forall|i: int|
            0 <= i < fields@.len() ==> (
                header_name_text(#[trigger] fields@[i].0),
                header_value_bytes(fields@[i].1),
            ) == header_fields(*map)[i],
{
    map.iter().map(|(name, value)| (name.clone(), value.clone())).collect()
}

/// `Method::from_bytes`: accepts exactly the methods.
#[verifier::external_body]
pub(crate) fn parse_method(text: &str) -> (parsed: Result<
    http::Method,
    http::method::InvalidMethod,
>)
    ensures
        parsed is Ok <==> is_method(text@),
{
    http::Method::from_bytes(text.as_bytes())
}

/// `Uri::from_str`: accepts exactly the text that the crate takes for a URI.
#[verifier::external_body]
pub(crate) fn parse_uri(text: &str) -> (parsed: Result<http::Uri, http::uri::InvalidUri>)
    ensures
        parsed is Ok <==> uri_accepted(text@),
{
    text.parse::<http::Uri>()
}

} // verus!
