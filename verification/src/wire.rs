//! How things are laid out on streams between two nodes.
//!
//! A stream that carries messages starts with one byte, the protocol they are
//! for, then any number of frames: a length (`u32`, big-endian), then that
//! many bytes. A datagram is the protocol byte, then the message. The first
//! stream on a connection instead carries a [`Hello`] in each direction, as
//! one frame.
use crate::buffers::{
    be32, be64, bytes_mut_with_capacity, bytes_view, freeze, put_slice, put_u64,
};
use crate::message::{encode_kind_and_payload, split_kind};
use crate::names::NodeName;
use crate::text::str_from_utf8;
use bytes::Bytes;
use vstd::prelude::*;

verus! {

/// The largest message that can be sent or is accepted from a peer.
pub const MAX_MESSAGE_SIZE: usize = 4194304;

/// The most a [`Hello`] can take.
pub const MAX_HELLO_SIZE: usize = 1024;

/// The number that four bytes write, most significant first.
pub open spec fn be32_value(b: Seq<u8>) -> u32 {
    ((b[0] as u32) << 24u32) | ((b[1] as u32) << 16u32) | ((b[2] as u32) << 8u32) | (b[3] as u32)
}

/// The number that eight bytes write, most significant first.
pub open spec fn be64_value(b: Seq<u8>) -> u64 {
    ((b[0] as u64) << 56u64) | ((b[1] as u64) << 48u64) | ((b[2] as u64) << 40u64) | ((b[3] as u64)
        << 32u64) | ((b[4] as u64) << 24u64) | ((b[5] as u64) << 16u64) | ((b[6] as u64) << 8u64)
        | (b[7] as u64)
}

/// Writing a `u32` out and reading it back gives the same number, and four
/// bytes read and written out again are the same bytes.
pub proof fn lemma_be32_round_trip(n: u32, b: Seq<u8>)
    requires
        b.len() == 4,
    ensures
        be32_value(be32(n)) == n,
        be32(be32_value(b)) == b,
{
    let (b0, b1, b2, b3) = (b[0], b[1], b[2], b[3]);
    assert(((((n >> 24u32) as u8) as u32) << 24u32) | ((((n >> 16u32) as u8) as u32) << 16u32)
        | ((((n >> 8u32) as u8) as u32) << 8u32) | ((n as u8) as u32) == n) by (bit_vector);
    let v = ((b0 as u32) << 24u32) | ((b1 as u32) << 16u32) | ((b2 as u32) << 8u32) | (b3 as u32);
    assert(v == ((b0 as u32) << 24u32) | ((b1 as u32) << 16u32) | ((b2 as u32) << 8u32) | (
    b3 as u32) ==> (v >> 24u32) as u8 == b0 && (v >> 16u32) as u8 == b1 && (v >> 8u32) as u8 == b2
        && v as u8 == b3) by (bit_vector);
    assert(be32(be32_value(b)) =~= b);
}

/// Writing a `u64` out and reading it back gives the same number, and eight
/// bytes read and written out again are the same bytes.
pub proof fn lemma_be64_round_trip(n: u64, b: Seq<u8>)
    requires
        b.len() == 8,
    ensures
        be64_value(be64(n)) == n,
        be64(be64_value(b)) == b,
{
    let (b0, b1, b2, b3, b4, b5, b6, b7) = (b[0], b[1], b[2], b[3], b[4], b[5], b[6], b[7]);
    assert(((((n >> 56u64) as u8) as u64) << 56u64) | ((((n >> 48u64) as u8) as u64) << 48u64) | ((
    ((n >> 40u64) as u8) as u64) << 40u64) | ((((n >> 32u64) as u8) as u64) << 32u64) | ((((n
        >> 24u64) as u8) as u64) << 24u64) | ((((n >> 16u64) as u8) as u64) << 16u64) | ((((n
        >> 8u64) as u8) as u64) << 8u64) | ((n as u8) as u64) == n) by (bit_vector);
    let v = ((b0 as u64) << 56u64) | ((b1 as u64) << 48u64) | ((b2 as u64) << 40u64) | ((
    b3 as u64) << 32u64) | ((b4 as u64) << 24u64) | ((b5 as u64) << 16u64) | ((b6 as u64) << 8u64)
        | (b7 as u64);
    assert(v == ((b0 as u64) << 56u64) | ((b1 as u64) << 48u64) | ((b2 as u64) << 40u64) | ((
    b3 as u64) << 32u64) | ((b4 as u64) << 24u64) | ((b5 as u64) << 16u64) | ((b6 as u64)
        << 8u64) | (b7 as u64) ==> (v >> 56u64) as u8 == b0 && (v >> 48u64) as u8 == b1 && (v
        >> 40u64) as u8 == b2 && (v >> 32u64) as u8 == b3 && (v >> 24u64) as u8 == b4 && (v
        >> 16u64) as u8 == b5 && (v >> 8u64) as u8 == b6 && v as u8 == b7) by (bit_vector);
    assert(be64(be64_value(b)) =~= b);
}

/// The number that the first eight bytes of `b` write, most significant
/// first.
pub fn read_be64(b: &[u8]) -> (r: u64)
    requires
        b@.len() >= 8,
    ensures
        r == be64_value(b@),
{
    ((b[0] as u64) << 56u64) | ((b[1] as u64) << 48u64) | ((b[2] as u64) << 40u64) | ((
    b[3] as u64) << 32u64) | ((b[4] as u64) << 24u64) | ((b[5] as u64) << 16u64) | ((b[6] as u64)
        << 8u64) | (b[7] as u64)
}

/// The four bytes that start a frame of `len` bytes: the length as a `u32`,
/// most significant byte first. Lengths past `u32::MAX` wrap around, as the
/// cast to `u32` does; messages are limited to [`MAX_MESSAGE_SIZE`] long
/// before that.
pub fn frame_header(len: usize) -> (r: Vec<u8>)
    ensures
        r@ == be32(len as u32),
{
    let n = len as u32;
    vec![(n >> 24u32) as u8, (n >> 16u32) as u8, (n >> 8u32) as u8, n as u8]
}

/// Why a frame was refused.
#[derive(Debug, Clone, Copy, PartialEq, Eq)]
pub struct FrameTooLarge {
    /// The length the frame announced.
    pub len: usize,
    /// The most that was accepted.
    pub max: usize,
}

/// The length that a frame header announces, if it is at most `max`.
pub fn frame_len(header: &[u8], max: usize) -> (r: Result<usize, FrameTooLarge>)
    requires
        header@.len() == 4,
    ensures
        r == (if be32_value(header@) as usize <= max {
            Ok::<usize, FrameTooLarge>(be32_value(header@) as usize)
        } else {
            Err(FrameTooLarge { len: be32_value(header@) as usize, max })
        }),
{
    let len = (((header[0] as u32) << 24u32) | ((header[1] as u32) << 16u32) | ((header[2] as u32)
        << 8u32) | (header[3] as u32)) as usize;
    if len > max {
        Err(FrameTooLarge { len, max })
    } else {
        Ok(len)
    }
}

/// A frame's header announces the length it was written for, and a frame no
/// longer than the limit is accepted.
pub proof fn lemma_frame_round_trip(len: usize, max: usize)
    requires
        len <= u32::MAX,
    ensures
        be32_value(be32(len as u32)) as usize == len,
        len <= max ==> be32_value(be32(len as u32)) as usize <= max,
        len > max ==> be32_value(be32(len as u32)) as usize > max,
{
    lemma_be32_round_trip(len as u32, be32(len as u32));
}

/// Which layer of a node a message is for.
#[derive(Debug, Clone, Copy, PartialEq, Eq, Structural, Hash)]
pub struct Protocol(pub u8);

/// The protocol byte of cluster membership.
pub const MEMBERSHIP: u8 = 0;

impl Protocol {
    /// Cluster membership.
    pub fn membership() -> (r: Protocol)
        ensures
            r.0 == MEMBERSHIP,
    {
        Protocol(MEMBERSHIP)
    }
}

/// A datagram: the protocol byte, then the message.
pub fn datagram(protocol: Protocol, payload: &[u8]) -> (r: Bytes)
    requires
        payload@.len() + 1 <= isize::MAX,
    ensures
        bytes_view(r) == seq![protocol.0] + payload@,
{
    encode_kind_and_payload(protocol.0, payload)
}

/// Which protocol a datagram is for, and its message; `None` for an empty
/// datagram, which is skipped.
pub fn split_datagram(bytes: Bytes) -> (r: Option<(Protocol, Bytes)>)
    ensures
        match r {
            None => bytes_view(bytes).len() == 0,
            Some((protocol, message)) => {
                &&& bytes_view(bytes).len() > 0
                &&& protocol.0 == bytes_view(bytes)[0]
                &&& bytes_view(message) == bytes_view(bytes).skip(1)
            },
        },
{
    match split_kind(bytes) {
        None => None,
        Some((protocol, message)) => Some((Protocol(protocol), message)),
    }
}

/// A datagram reaches the protocol it was sent for, with the message it was
/// sent with.
pub proof fn lemma_datagram_round_trip(protocol: u8, payload: Seq<u8>)
    ensures
        (seq![protocol] + payload)[0] == protocol,
        (seq![protocol] + payload).skip(1) == payload,
{
    assert((seq![protocol] + payload).skip(1) =~= payload);
}

/// The first message on every connection, in both directions: who is on the
/// other end.
#[derive(Debug)]
pub struct Hello {
    /// The node that sends it.
    pub node: NodeName,
    /// The sender's generation.
    pub generation: u64,
}

/// What a hello carries, as a value.
pub struct HelloView {
    pub node: Seq<char>,
    pub generation: u64,
}

impl View for Hello {
    type V = HelloView;

    open spec fn view(&self) -> HelloView {
        HelloView { node: self.node@, generation: self.generation }
    }
}

/// A hello on the wire: the generation (`u64`, big-endian), then the node
/// name in UTF-8.
pub open spec fn hello_encoding(h: HelloView) -> Seq<u8> {
    be64(h.generation) + vstd::utf8::encode_utf8(h.node)
}

/// What `bytes` are read as: at least eight bytes, the generation, followed
/// by a node name in valid UTF-8.
pub open spec fn hello_decoding(bytes: Seq<u8>) -> Option<HelloView> {
    if bytes.len() >= 8 && vstd::utf8::valid_utf8(bytes.skip(8)) {
        Some(
            HelloView {
                node: vstd::utf8::decode_utf8(bytes.skip(8)),
                generation: be64_value(bytes.take(8)),
            },
        )
    } else {
        None
    }
}

impl Hello {
    /// The hello as it is sent.
    pub fn encode(&self) -> (r: Bytes)
        requires
            vstd::utf8::encode_utf8(self.node@).len() + 8 <= isize::MAX,
        ensures
            bytes_view(r) == hello_encoding(self@),
    {
        let name = self.node.as_str().as_bytes();
        let mut buf = bytes_mut_with_capacity(0);
        put_u64(&mut buf, self.generation);
        put_slice(&mut buf, name);
        freeze(buf)
    }

    /// Reads a hello; `None` if it is shorter than a generation or the name is
    /// not valid UTF-8.
    pub fn decode(bytes: &[u8]) -> (r: Option<Hello>)
        ensures
            match r {
                None => hello_decoding(bytes@) is None,
                Some(h) => hello_decoding(bytes@) == Some(h@),
            },
    {
        if bytes.len() < 8 {
            return None;
        }
        let (generation, node) = bytes.split_at(8);
        assert(node@ =~= bytes@.skip(8));
        assert(generation@ =~= bytes@.take(8));
        match str_from_utf8(node) {
            None => None,
            Some(name) => Some(Hello { node: NodeName::new(name), generation: read_be64(generation) }),
        }
    }
}

/// Reading a hello back gives the node and generation that were sent.
pub proof fn lemma_hello_round_trip(h: HelloView)
    ensures
        hello_decoding(hello_encoding(h)) == Some(h),
{
    let bytes = hello_encoding(h);
    let name = vstd::utf8::encode_utf8(h.node);
    assert(bytes.skip(8) =~= name);
    assert(bytes.take(8) =~= be64(h.generation));
    vstd::utf8::encode_utf8_valid_utf8(h.node);
    vstd::utf8::encode_utf8_decode_utf8(h.node);
    lemma_be64_round_trip(h.generation, be64(h.generation));
}

/// A hello that is read is exactly the encoding of what it was read as: no
/// two different byte strings are read as the same hello.
pub proof fn lemma_hello_decoding_is_exact(bytes: Seq<u8>)
    requires
        hello_decoding(bytes) is Some,
    ensures
        hello_encoding(hello_decoding(bytes).unwrap()) == bytes,
{
    let h = hello_decoding(bytes).unwrap();
    vstd::utf8::decode_utf8_encode_utf8(bytes.skip(8));
    lemma_be64_round_trip(0, bytes.take(8));
    assert(bytes.take(8) + bytes.skip(8) =~= bytes);
}

} // verus!
