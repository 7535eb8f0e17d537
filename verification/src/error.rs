//! The failures of a conversion, and the failure status that the transport
//! is given.

use vstd::prelude::*;
use vstd::string::*;

verus! {

/// What was wrong with an inbound message.
#[derive(Debug, Clone, Copy, PartialEq, Eq, Structural)]
pub enum RequestFault {
    /// A header name that is no header name.
    HeaderName,
    /// A header value with a byte that no header value may hold.
    HeaderValue,
    /// More headers than a header map takes.
    TooManyHeaders,
    /// A method that is no method.
    Method,
    /// A URL that is no URI.
    Uri,
}

impl RequestFault {
    /// The fault in words.
    pub open spec fn description(self) -> Seq<char> {
        match self {
            RequestFault::HeaderName => "invalid header name"@,
            RequestFault::HeaderValue => "invalid header value"@,
            RequestFault::TooManyHeaders => "too many headers"@,
            RequestFault::Method => "invalid method"@,
            RequestFault::Uri => "invalid URI"@,
        }
    }

    /// The fault in words.
    pub fn describe(&self) -> (text: &'static str)
        ensures
            text@ == self.description(),
    {
        match self {
            RequestFault::HeaderName => "invalid header name",
            RequestFault::HeaderValue => "invalid header value",
            RequestFault::TooManyHeaders => "too many headers",
            RequestFault::Method => "invalid method",
            RequestFault::Uri => "invalid URI",
        }
    }
}

/// Why a message could not be converted.
#[derive(Debug, Clone, PartialEq, Eq)]
pub enum ConversionError {
    /// The inbound message is malformed.
    InvalidRequest { cause: RequestFault },
    /// The response holds a header value that cannot be written out as text.
    InvalidResponse,
    /// The plugin context of the inbound message could not be converted.
    PluginContext { description: String },
}

impl ConversionError {
    /// The failure in words.
    pub open spec fn description(self) -> Seq<char> {
        match self {
            ConversionError::InvalidRequest { cause } => "invalid resource request: "@
                + cause.description(),
            ConversionError::InvalidResponse => "invalid resource response"@,
            ConversionError::PluginContext { description } => "invalid plugin context: "@
                + description@,
        }
    }

    /// The failure in words.
    pub fn describe(&self) -> (text: String)
        ensures
            text@ == self.description(),
    {
        match self {
            ConversionError::InvalidRequest { cause } => {
                String::from_str("invalid resource request: ").concat(cause.describe())
            },
            ConversionError::InvalidResponse => String::from_str("invalid resource response"),
            ConversionError::PluginContext { description } => {
                String::from_str("invalid plugin context: ").concat(description.as_str())
            },
        }
    }
}

/// The kind of a failure status.
#[derive(Debug, Clone, Copy, PartialEq, Eq, Structural)]
pub enum Code {
    /// The caller sent something that cannot be worked on.
    InvalidArgument,
    /// The plugin failed while it worked on the call.
    Internal,
}

/// A failure as the transport reports it to the caller.
#[derive(Debug, Clone, PartialEq, Eq)]
pub struct Status {
    pub code: Code,
    pub message: String,
}

/// What a failure status holds.
pub struct StatusView {
    pub code: Code,
    pub message: Seq<char>,
}

impl View for Status {
    type V = StatusView;

    open spec fn view(&self) -> StatusView {
        StatusView { code: self.code, message: self.message@ }
    }
}

/// The status that rejects a call whose message could not be converted.
pub open spec fn rejection(error: ConversionError) -> StatusView {
    StatusView { code: Code::InvalidArgument, message: error.description() }
}

/// The status of a failure inside the stream, with its description.
pub open spec fn failure(description: Seq<char>) -> StatusView {
    StatusView { code: Code::Internal, message: description }
}

impl Status {
    /// The status that rejects a call whose message could not be converted.
    pub fn rejecting(error: &ConversionError) -> (status: Status)
        ensures
            status@ == rejection(*error),
    {
        Status { code: Code::InvalidArgument, message: error.describe() }
    }

    /// The status of a failure inside the stream, with its description.
    pub fn internal(description: String) -> (status: Status)
        ensures
            status@ == failure(description@),
    {
        Status { code: Code::Internal, message: description }
    }
}

} // verus!
