//! Why a value couldn't be put on the wire, or read from it.
use vstd::prelude::*;

verus! {

/// Why a value couldn't be encoded.
#[derive(Debug, Clone, PartialEq, Eq)]
pub struct EncodeError {
    reason: String,
}

/// Why bytes couldn't be decoded into a value.
#[derive(Debug, Clone, PartialEq, Eq)]
pub struct DecodeError {
    reason: String,
}

impl EncodeError {
    /// The reason it is given, as a value.
    pub closed spec fn reason_view(&self) -> Seq<char> {
        self.reason@
    }

    /// An encoding failure for the reason `error`.
    pub fn new(error: &str) -> (r: EncodeError)
        ensures
            r.reason_view() == error@,
    {
        EncodeError { reason: error.to_owned() }
    }

    /// Why encoding failed.
    pub fn reason(&self) -> (r: &str)
        ensures
            r@ == self.reason_view(),
    {
        self.reason.as_str()
    }

    /// The message it is reported with: `Failed to encode: `, then the reason.
    pub fn message(&self) -> (r: String)
        ensures
            r@ == "Failed to encode: "@ + self.reason_view(),
    {
        let mut text = "Failed to encode: ".to_owned();
        text.append(self.reason.as_str());
        text
    }
}

impl DecodeError {
    /// The reason it is given, as a value.
    pub closed spec fn reason_view(&self) -> Seq<char> {
        self.reason@
    }

    /// A decoding failure for the reason `error`.
    pub fn new(error: &str) -> (r: DecodeError)
        ensures
            r.reason_view() == error@,
    {
        DecodeError { reason: error.to_owned() }
    }

    /// Why decoding failed.
    pub fn reason(&self) -> (r: &str)
        ensures
            r@ == self.reason_view(),
    {
        self.reason.as_str()
    }

    /// The message it is reported with: `Failed to decode: `, then the reason.
    pub fn message(&self) -> (r: String)
        ensures
            r@ == "Failed to decode: "@ + self.reason_view(),
    {
        let mut text = "Failed to decode: ".to_owned();
        text.append(self.reason.as_str());
        text
    }
}

} // verus!
