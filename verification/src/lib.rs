//! Verified engine for driving an ESP8266-style Wi-Fi co-processor over a
//! line-oriented AT command protocol: command framing, terminal-marker
//! detection, session sequencing, inbound-data de-framing, and extraction of
//! a numeric JSON payload from the reconstructed HTTP response.

pub mod bytes;
pub mod channel;
pub mod commands;
pub mod esp8266;
pub mod http;
pub mod json;
pub mod markers;
pub mod reassemble;

pub use crate::esp8266::Esp8266;
pub use crate::http::HttpJsonResp;
pub use crate::json::JsonValue;

use vstd::prelude::*;

verus! {

/// Typed failures of the protocol engine.
#[derive(Debug)]
pub enum Esp8266Error {
    /// The byte channel to the module refused a write.
    Transport,
    /// A command completed with a non-success terminal marker; carries the
    /// trimmed response text for diagnostics.
    Error(Vec<u8>),
    /// The acknowledgement read after handing off the raw request was not
    /// the success marker; carries the acknowledgement text.
    GetError(Vec<u8>),
    /// A bounded buffer reached capacity before a terminal or
    /// connection-closed marker was seen.
    Overrun,
    /// The byte source ran dry before a response completed.
    Timeout,
    /// The reconstructed response lacked its status line or its
    /// header/body boundary.
    ParseError,
    /// The body was not a single integer or a flat integer list within
    /// capacity.
    JsonError,
}

} // verus!
