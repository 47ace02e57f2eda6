//! The closed failure taxonomy surfaced to the driver loop.
//!
//! Every failure below the driver loop is converted into exactly one of these
//! kinds before reaching the loop; the loop never sees a raw lower-level
//! fault.

use vstd::prelude::*;

verus! {

/// One classified failure of the read -> unframe -> decode -> validate
/// pipeline.
#[derive(Debug)]
pub enum ProxyError {
    /// The byte source yielded zero bytes where at least the delimiter was
    /// expected: permanent end of input.
    Disconnect,
    /// The byte source reported no data within its wait window: transient,
    /// no frame was consumed.
    TimedOut,
    /// The stuffed byte sequence was invalid and no payload was recovered.
    DecodeError,
    /// The payload bytes were not a well-formed encoded value, or the value
    /// tree did not match the frame schema; the reason names the exact cause.
    ParseError(String),
}

/// Mathematical image of a [`ProxyError`]: the reason string as a character
/// sequence.
pub ghost enum ProxyErrorView {
    Disconnect,
    TimedOut,
    DecodeError,
    ParseError(Seq<char>),
}

impl View for ProxyError {
    type V = ProxyErrorView;

    open spec fn view(&self) -> ProxyErrorView {
        match self {
            ProxyError::Disconnect => ProxyErrorView::Disconnect,
            ProxyError::TimedOut => ProxyErrorView::TimedOut,
            ProxyError::DecodeError => ProxyErrorView::DecodeError,
            ProxyError::ParseError(s) => ProxyErrorView::ParseError(s@),
        }
    }
}

impl ProxyError {
    /// A human-readable description, used by the presentation layer when a
    /// nonfatal failure is logged.
    pub fn describe(&self) -> (r: String)
        ensures
            self@ matches ProxyErrorView::ParseError(s) ==> r@ == "parse error: "@ + s,
            self@ is DecodeError ==> r@ == "invalid frame encoding"@,
            self@ is Disconnect ==> r@ == "device disconnected"@,
            self@ is TimedOut ==> r@ == "timed out"@,
    {
        match self {
            ProxyError::Disconnect => String::from_str("device disconnected"),
            ProxyError::TimedOut => String::from_str("timed out"),
            ProxyError::DecodeError => String::from_str("invalid frame encoding"),
            ProxyError::ParseError(s) => String::from_str("parse error: ").concat(s.as_str()),
        }
    }
}

} // verus!
