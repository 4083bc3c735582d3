//! How a frame of the membership transport is laid out on the wire: a kind
//! byte, then the payload.
use crate::buffers::{bytes_as_slice, bytes_view};
use crate::message::{
    decoding, encode_kind_and_payload, encoding, split_kind, MessageView, KIND_DEPARTURE,
    KIND_GOSSIP,
};
use bytes::Bytes;
use vstd::prelude::*;

verus! {

/// What travels between the membership layers of two nodes.
#[derive(Debug, Clone, PartialEq, Eq)]
pub enum Frame {
    /// Opaque membership protocol bytes.
    Gossip(Bytes),
    /// The sender is shutting down cleanly and is not going to come back.
    Departure,
}

impl View for Frame {
    type V = MessageView;

    open spec fn view(&self) -> MessageView {
        match self {
            Frame::Gossip(data) => MessageView::Gossip(bytes_view(*data)),
            Frame::Departure => MessageView::Departure,
        }
    }
}

impl Frame {
    /// Whether the frame may be sent as an unreliable datagram: loss-tolerant
    /// messages only. Everything else goes over a reliable stream.
    pub fn is_datagram(&self) -> (r: bool)
        ensures
            r == (self is Gossip),
    {
        match self {
            Frame::Gossip(_) => true,
            Frame::Departure => false,
        }
    }

    /// The frame on the wire: its kind byte, then the gossip payload.
    pub fn encode(&self) -> (r: Bytes)
        requires
            self@ matches MessageView::Gossip(data) ==> data.len() + 1 <= isize::MAX,
        ensures
            bytes_view(r) == encoding(self@),
    {
        match self {
            Frame::Gossip(data) => encode_kind_and_payload(KIND_GOSSIP, bytes_as_slice(data)),
            Frame::Departure => encode_kind_and_payload(KIND_DEPARTURE, &[]),
        }
    }

    /// Reads a frame from the wire; `None` for an empty packet or an unknown
    /// kind.
    pub fn decode(bytes: Bytes) -> (r: Option<Frame>)
        ensures
            match r {
                None => decoding(bytes_view(bytes)) is None,
                Some(f) => decoding(bytes_view(bytes)) == Some(f@),
            },
    {
        match split_kind(bytes) {
            None => None,
            Some((kind, rest)) => {
                if kind == KIND_GOSSIP {
                    Some(Frame::Gossip(rest))
                } else if kind == KIND_DEPARTURE {
                    Some(Frame::Departure)
                } else {
                    None
                }
            },
        }
    }
}

} // verus!
