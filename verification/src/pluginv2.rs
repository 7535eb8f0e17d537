//! The messages of the plugin protocol, as they travel between host and
//! plugin.
//!
//! The protocol keeps headers as a map from a name to a list of values. Here
//! that map is an association list: one entry per name, in the order in which
//! the entries are walked.

use vstd::prelude::*;

verus! {

/// The values that the protocol keeps under one header name.
#[derive(Debug, Clone, PartialEq, Eq)]
pub struct StringList {
    pub values: Vec<String>,
}

impl View for StringList {
    type V = Seq<Seq<char>>;

    open spec fn view(&self) -> Seq<Seq<char>> {
        self.values.deep_view()
    }
}

impl DeepView for StringList {
    type V = Seq<Seq<char>>;

    open spec fn deep_view(&self) -> Seq<Seq<char>> {
        self.view()
    }
}

/// A header map of the protocol as a mathematical value: each entry is a name
/// with the values kept under it.
pub type HeaderEntries = Seq<(Seq<char>, Seq<Seq<char>>)>;

/// The inbound message of a resource call.
#[derive(Debug, Clone, PartialEq, Eq)]
pub struct CallResourceRequest {
    pub method: String,
    pub url: String,
    pub headers: Vec<(String, StringList)>,
    pub body: Vec<u8>,
}

/// One outbound message of a resource call.
#[derive(Debug, Clone, PartialEq, Eq)]
pub struct CallResourceResponse {
    pub code: i32,
    pub headers: Vec<(String, StringList)>,
    pub body: Vec<u8>,
}

/// What an outbound message holds.
pub struct ResponseView {
    pub code: int,
    pub headers: HeaderEntries,
    pub body: Seq<u8>,
}

impl View for CallResourceResponse {
    type V = ResponseView;

    open spec fn view(&self) -> ResponseView {
        ResponseView {
            code: self.code as int,
            headers: self.headers.deep_view(),
            body: self.body@,
        }
    }
}

} // verus!
