//! Adapter between HTTP-shaped resource requests and responses and the
//! messages of a streaming plugin protocol.
//!
//! A host sends one inbound message per resource call. The adapter turns it
//! into a request, hands the request to a handler, and relays the handler's
//! initial response and its follow-up chunks as one ordered stream of
//! outbound messages.
//!
//! - [`pluginv2`] holds the messages of the protocol.
//! - [`grammar`] and [`fields`] say what header names, header values and
//!   methods are, and how a sequence of header fields is read as a multimap.
//! - [`headers`] is the header codec, [`request`] converts the inbound
//!   message, [`response`] converts what a handler gives.
//! - [`stream`] is the state machine of one call. It is pure: whoever drives
//!   it does the waiting.
//! - [`error`] holds the failures and the status that the transport reports.
//! - [`http_api`] states what is relied on of the `http` crate.
//!
//! Every function is verified against its contract, down to the contracts in
//! [`http_api`], which are taken on trust.

pub mod error;
pub mod fields;
pub mod grammar;
pub mod headers;
pub mod http_api;
pub mod pluginv2;
pub mod request;
pub mod response;
pub mod stream;
