//! The response of a handler, and its conversion into outbound messages.

use crate::error::ConversionError;
use crate::fields::Field;
use crate::headers::{all_text, distinct_names, encode_headers, grouped_entries};
use crate::http_api::{header_fields, new_header_map};
use crate::pluginv2;
use vstd::prelude::*;

verus! {

/// The response of a handler: a status code, headers and a body.
#[derive(Debug)]
pub struct Response {
    /// The status code.
    pub status: u16,
    /// The headers.
    pub headers: http::HeaderMap<http::HeaderValue>,
    /// The body.
    pub body: Vec<u8>,
}

impl Response {
    /// The status code is one that HTTP knows: from 100 to 599.
    pub open spec fn wf(&self) -> bool {
        100 <= self.status <= 599
    }

    /// A response with the given parts, if the status code is one that HTTP
    /// knows.
    pub fn new(status: u16, headers: http::HeaderMap<http::HeaderValue>, body: Vec<u8>) -> (response:
        Option<Response>)
        ensures
            response == if 100 <= status <= 599 {
                Some(Response { status, headers, body })
            } else {
                None
            },
            response matches Some(made) ==> made.wf(),
    {
        if 100 <= status && status <= 599 {
            Some(Response { status, headers, body })
        } else {
            None
        }
    }

    /// The response that says that all went well, with the given body and no
    /// headers.
    pub fn ok(body: Vec<u8>) -> (response: Response)
        ensures
            response.wf(),
            response.status == 200,
            header_fields(response.headers) == Seq::<Field>::empty(),
            response.body == body,
    {
        Response { status: 200, headers: new_header_map(), body }
    }

    /// The outbound message that the response becomes, where its headers can
    /// be written out: the status code, the headers grouped by name, and the
    /// body.
    pub open spec fn message(self) -> Option<pluginv2::ResponseView> {
        if all_text(header_fields(self.headers)) {
            Some(
                pluginv2::ResponseView {
                    code: self.status as int,
                    headers: grouped_entries(header_fields(self.headers)),
                    body: self.body@,
                },
            )
        } else {
            None
        }
    }
}

impl pluginv2::CallResourceResponse {
    /// Converts the response of a handler into an outbound message.
    ///
    /// The conversion fails where a header value cannot be written out as
    /// text, and only there.
    pub fn try_from(other: Response) -> (message: Result<Self, ConversionError>)
        ensures
            match message {
                Ok(converted) => other.message() == Some(converted@) && distinct_names(
                    converted@.headers,
                ),
                Err(error) => other.message() is None && error == ConversionError::InvalidResponse,
            },
    {
        let headers = match encode_headers(&other.headers) {
            Ok(headers) => headers,
            Err(error) => {
                return Err(error);
            },
        };
        Ok(pluginv2::CallResourceResponse { code: other.status as i32, headers, body: other.body })
    }
}

/// The outbound message that carries one chunk: status 200, no headers, and
/// the chunk as its body.
pub open spec fn chunk_message(body: Seq<u8>) -> pluginv2::ResponseView {
    pluginv2::ResponseView { code: 200, headers: Seq::empty(), body }
}

/// Wraps one chunk of the continuation stream into an outbound message.
pub fn body_to_response(body: Vec<u8>) -> (message: pluginv2::CallResourceResponse)
    ensures
        message@ == chunk_message(body@),
{
    let message = pluginv2::CallResourceResponse { code: 200, headers: Vec::new(), body };
    assert(message.headers.deep_view() =~= Seq::empty());
    message
}

} // verus!
