//! The request of a resource call, and its conversion from the inbound
//! message.

use crate::error::{ConversionError, RequestFault};
use crate::fields::{names_held, same_multimap};
use crate::grammar::is_method;
use crate::headers::{decode_headers, first_fault, wire_fields};
use crate::http_api::{header_fields, parse_method, parse_uri, sure_names, uri_accepted};
use crate::pluginv2;
use vstd::prelude::*;

verus! {

/// A request for a resource call.
///
/// `C` is the plugin context: the adapter carries it along and never looks
/// inside.
#[derive(Debug)]
pub struct CallResourceRequest<C> {
    /// Details of the plugin instance from which the request originated.
    pub plugin_context: Option<C>,
    /// The HTTP method.
    pub method: String,
    /// The URI that the request is for.
    pub uri: String,
    /// The headers, under their names in lower case.
    pub headers: http::HeaderMap<http::HeaderValue>,
    /// The body.
    pub body: Vec<u8>,
}

/// The plugin context that a request carries, given how the conversion of the
/// message's context sub-message ended.
pub open spec fn carried_context<C>(context: Option<Result<C, String>>) -> Option<C> {
    match context {
        Some(Ok(converted)) => Some(converted),
        _ => None,
    }
}

impl<C> CallResourceRequest<C> {
    /// The method and the URI are well formed.
    pub open spec fn wf(&self) -> bool {
        &&& is_method(self.method@)
        &&& uri_accepted(self.uri@)
    }

    /// What becomes of a message whose headers have been decoded: the first
    /// failure among plugin context, method and URI, in this order, or else
    /// the request.
    pub open spec fn assembled(
        headers: http::HeaderMap<http::HeaderValue>,
        context: Option<Result<C, String>>,
        method: String,
        method_ok: bool,
        url: String,
        uri_ok: bool,
        body: Vec<u8>,
    ) -> Result<Self, ConversionError> {
        if let Some(Err(description)) = context {
            Err(ConversionError::PluginContext { description })
        } else if !method_ok {
            Err(ConversionError::InvalidRequest { cause: RequestFault::Method })
        } else if !uri_ok {
            Err(ConversionError::InvalidRequest { cause: RequestFault::Uri })
        } else {
            Ok(
                CallResourceRequest {
                    plugin_context: carried_context(context),
                    method,
                    uri: url,
                    headers,
                    body,
                },
            )
        }
    }

    /// Builds the request from the decoded headers and the remaining parts of
    /// the message, given whether the method and the URL were accepted.
    pub fn assemble(
        headers: http::HeaderMap<http::HeaderValue>,
        context: Option<Result<C, String>>,
        method: String,
        method_ok: bool,
        url: String,
        uri_ok: bool,
        body: Vec<u8>,
    ) -> (request: Result<Self, ConversionError>)
        ensures
            request == Self::assembled(headers, context, method, method_ok, url, uri_ok, body),
    {
        let plugin_context = match context {
            Some(Err(description)) => {
                return Err(ConversionError::PluginContext { description });
            },
            Some(Ok(converted)) => Some(converted),
            None => None,
        };
        if !method_ok {
            return Err(ConversionError::InvalidRequest { cause: RequestFault::Method });
        }
        if !uri_ok {
            return Err(ConversionError::InvalidRequest { cause: RequestFault::Uri });
        }
        Ok(CallResourceRequest { plugin_context, method, uri: url, headers, body })
    }

    /// The message has no fault: its headers, its method and its URL are
    /// well formed, and the conversion of its plugin context has not failed.
    pub open spec fn sound(
        other: pluginv2::CallResourceRequest,
        context: Option<Result<C, String>>,
    ) -> bool {
        &&& first_fault(other.headers.deep_view()) is None
        &&& !(context matches Some(Err(_)))
        &&& is_method(other.method@)
        &&& uri_accepted(other.url@)
    }

    /// How the conversion of a message may end.
    ///
    /// The headers are decoded first, then the plugin context is looked at,
    /// then the method, then the URL; the first failure is the result. A
    /// header map that takes no more fields fails the conversion too, which
    /// happens only to a message with `sure_names()` header names or more.
    pub open spec fn converts(
        other: pluginv2::CallResourceRequest,
        context: Option<Result<C, String>>,
        request: Result<Self, ConversionError>,
    ) -> bool {
        let entries = other.headers.deep_view();
        match request {
            Ok(converted) => {
                &&& first_fault(entries) is None
                &&& same_multimap(header_fields(converted.headers), wire_fields(entries))
                &&& !(context matches Some(Err(_)))
                &&& converted.wf()
                &&& converted.plugin_context == carried_context(context)
                &&& converted.method == other.method
                &&& converted.uri == other.url
                &&& converted.body == other.body
            },
            Err(ConversionError::InvalidRequest { cause }) => {
                ||| first_fault(entries) == Some(cause)
                ||| cause == RequestFault::TooManyHeaders && names_held(wire_fields(entries))
                    >= sure_names()
                ||| {
                    &&& first_fault(entries) is None
                    &&& !(context matches Some(Err(_)))
                    &&& cause == RequestFault::Method
                    &&& !is_method(other.method@)
                }
                ||| {
                    &&& first_fault(entries) is None
                    &&& !(context matches Some(Err(_)))
                    &&& is_method(other.method@)
                    &&& cause == RequestFault::Uri
                    &&& !uri_accepted(other.url@)
                }
            },
            Err(ConversionError::PluginContext { description }) => {
                &&& first_fault(entries) is None
                &&& context == Some(Err::<C, String>(description))
            },
            Err(ConversionError::InvalidResponse) => false,
        }
    }

    /// Converts the inbound message of a resource call into a request.
    ///
    /// `context` tells how the conversion of the message's plugin context
    /// ended: `None` where the message carries none.
    pub fn try_from(other: pluginv2::CallResourceRequest, context: Option<Result<C, String>>) -> (request:
        Result<Self, ConversionError>)
        ensures
            Self::converts(other, context, request),
            Self::sound(other, context) && names_held(wire_fields(other.headers.deep_view()))
                < sure_names() ==> request is Ok,
            !Self::sound(other, context) ==> request is Err,
    {
        let headers = match decode_headers(&other.headers) {
            Ok(headers) => headers,
            Err(error) => {
                return Err(error);
            },
        };
        let method_ok = parse_method(other.method.as_str()).is_ok();
        let uri_ok = parse_uri(other.url.as_str()).is_ok();
        Self::assemble(headers, context, other.method, method_ok, other.url, uri_ok, other.body)
    }
}

} // verus!
