//! What nodes say to each other about membership: a kind byte, then the
//! payload.
use crate::buffers::{
    bytes_as_slice, bytes_len, bytes_mut_with_capacity, bytes_split_to, bytes_view, freeze, put_slice,
    put_u8,
};
use crate::names::NodeName;
use bytes::Bytes;
use foca::{Codec, PostcardCodec};
use vstd::prelude::*;

verus! {

/// The kind byte of a gossip message.
pub const KIND_GOSSIP: u8 = 1;

/// The kind byte of a departure.
pub const KIND_DEPARTURE: u8 = 2;

/// How reliably a message must arrive.
#[derive(Debug, Clone, Copy, PartialEq, Eq, Structural, Hash)]
pub enum Delivery {
    /// May be lost, and may overtake other messages. For traffic that repeats
    /// itself anyway, such as gossip.
    Datagram,
    /// Arrives complete and in order relative to what else is sent on the same
    /// pipe, or not at all if the connection is lost.
    Ordered,
}

/// A membership message, as a value: what its encoding carries.
pub enum MessageView {
    Gossip(Seq<u8>),
    Departure,
}

/// The bytes a membership message is sent as.
pub open spec fn encoding(m: MessageView) -> Seq<u8> {
    match m {
        MessageView::Gossip(data) => seq![KIND_GOSSIP] + data,
        MessageView::Departure => seq![KIND_DEPARTURE],
    }
}

/// What a packet of `bytes` is read as: nothing if it is empty or its first
/// byte is no known kind; the rest of the packet is the gossip payload, and is
/// ignored after a departure.
pub open spec fn decoding(bytes: Seq<u8>) -> Option<MessageView> {
    if bytes.len() == 0 {
        None
    } else if bytes[0] == KIND_GOSSIP {
        Some(MessageView::Gossip(bytes.skip(1)))
    } else if bytes[0] == KIND_DEPARTURE {
        Some(MessageView::Departure)
    } else {
        None
    }
}

/// What nodes say to each other about membership: a kind byte, then the
/// payload.
#[derive(Debug, Clone, PartialEq, Eq)]
pub enum Message {
    /// Opaque membership protocol bytes.
    Gossip(Bytes),
    /// The sender is shutting down cleanly and is not going to come back.
    Departure,
}

impl View for Message {
    type V = MessageView;

    open spec fn view(&self) -> MessageView {
        match self {
            Message::Gossip(data) => MessageView::Gossip(bytes_view(*data)),
            Message::Departure => MessageView::Departure,
        }
    }
}

/// Encodes a message, gossip or departure alike, into a fresh buffer.
pub(crate) fn encode_kind_and_payload(kind: u8, payload: &[u8]) -> (r: Bytes)
    requires
        payload@.len() + 1 <= isize::MAX,
    ensures
        bytes_view(r) == seq![kind] + payload@,
{
    let mut buf = bytes_mut_with_capacity(1 + payload.len());
    put_u8(&mut buf, kind);
    put_slice(&mut buf, payload);
    freeze(buf)
}

/// Splits a packet into its kind byte and what follows it; `None` for an
/// empty packet.
pub(crate) fn split_kind(mut bytes: Bytes) -> (r: Option<(u8, Bytes)>)
    ensures
        match r {
            None => bytes_view(bytes).len() == 0,
            Some((kind, rest)) => {
                &&& bytes_view(bytes).len() > 0
                &&& kind == bytes_view(bytes)[0]
                &&& bytes_view(rest) == bytes_view(bytes).skip(1)
            },
        },
{
    if bytes_len(&bytes) == 0 {
        return None;
    }
    let head = bytes_split_to(&mut bytes, 1);
    let kind = bytes_as_slice(&head)[0];
    Some((kind, bytes))
}

impl Message {
    /// How it has to be sent: gossip repeats itself and tolerates loss, a
    /// departure is said once.
    pub fn delivery(&self) -> (r: Delivery)
        ensures
            r == (match self {
                Message::Gossip(_) => Delivery::Datagram,
                Message::Departure => Delivery::Ordered,
            }),
    {
        match self {
            Message::Gossip(_) => Delivery::Datagram,
            Message::Departure => Delivery::Ordered,
        }
    }

    /// The message on the wire: its kind byte, then the gossip payload.
    pub fn encode(&self) -> (r: Bytes)
        requires
            self@ matches MessageView::Gossip(data) ==> data.len() + 1 <= isize::MAX,
        ensures
            bytes_view(r) == encoding(self@),
    {
        match self {
            Message::Gossip(data) => encode_kind_and_payload(KIND_GOSSIP, bytes_as_slice(data)),
            Message::Departure => encode_kind_and_payload(KIND_DEPARTURE, &[]),
        }
    }

    /// Reads a message from the wire; `None` for an empty packet or an unknown
    /// kind.
    pub fn decode(bytes: Bytes) -> (r: Option<Message>)
        ensures
            match r {
                None => decoding(bytes_view(bytes)) is None,
                Some(m) => decoding(bytes_view(bytes)) == Some(m@),
            },
    {
        match split_kind(bytes) {
            None => None,
            Some((kind, rest)) => {
                if kind == KIND_GOSSIP {
                    Some(Message::Gossip(rest))
                } else if kind == KIND_DEPARTURE {
                    Some(Message::Departure)
                } else {
                    None
                }
            },
        }
    }
}

/// The name that the header of the gossip packet `packet` gives its
/// sender, or `None` if the packet doesn't start with a header that the
/// membership protocol reads.
pub uninterp spec fn packet_sender(packet: Seq<u8>) -> Option<Seq<char>>;

/// Reads the header of a gossip packet with `foca`'s postcard codec
/// (`Codec::decode_header` of `PostcardCodec`) and gives the name of the
/// node the header names as its sender. A member travels as its name, its
/// address and its generation, in that order, which is how the header's
/// identities are read here. The name is stated through [`packet_sender`].
#[verifier::external_body]
fn header_sender(packet: &[u8]) -> (r: Option<String>)
    ensures
        r is Some <==> packet_sender(packet@) is Some,
        r matches Some(name) ==> name@ == packet_sender(packet@).unwrap(),
{
    Codec::<(String, String, u64)>::decode_header(&mut PostcardCodec, packet).ok().map(|header| header.src.0)
}

/// The node that a gossip packet says it is from.
pub fn sender_of(packet: &[u8]) -> (r: Option<NodeName>)
    ensures
        match packet_sender(packet@) {
            None => r is None,
            Some(name) => r matches Some(node) && node@ == name,
        },
{
    match header_sender(packet) {
        Some(name) => Some(NodeName::from_string(name)),
        None => None,
    }
}

/// Whether gossip is taken in: every gossip packet names its own sender, and
/// the membership protocol answers whoever that is, so it has to be `from`,
/// the node the packet came from as the transport established it. Otherwise
/// any member could speak for another.
pub fn gossip_from_its_sender(named: &Option<NodeName>, from: &NodeName) -> (r: bool)
    ensures
        r == (named matches Some(n) && n@ == from@),
{
    match named {
        Some(n) => n.same(from),
        None => false,
    }
}

/// Reading back what was encoded gives the message that was encoded.
pub proof fn lemma_message_round_trip(m: MessageView)
    ensures
        decoding(encoding(m)) == Some(m),
{
    match m {
        MessageView::Gossip(data) => {
            assert((seq![KIND_GOSSIP] + data).skip(1) =~= data);
        },
        MessageView::Departure => {},
    }
}

/// A packet that is read as a message is that message's encoding, followed,
/// after a departure, by bytes that are ignored.
pub proof fn lemma_message_decoding_is_exact(bytes: Seq<u8>)
    requires
        decoding(bytes) is Some,
    ensures
        encoding(decoding(bytes).unwrap()) == bytes.take(encoding(decoding(bytes).unwrap()).len() as int),
        decoding(bytes).unwrap() is Gossip ==> encoding(decoding(bytes).unwrap()) == bytes,
{
    if bytes[0] == KIND_GOSSIP {
        assert(seq![KIND_GOSSIP] + bytes.skip(1) =~= bytes);
        assert(bytes.take(bytes.len() as int) =~= bytes);
    } else {
        assert(bytes.take(1) =~= seq![KIND_DEPARTURE]);
    }
}

} // verus!
