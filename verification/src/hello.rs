//! The identity exchange that opens every connection of the membership
//! transport, with a protocol version so that incompatible peers refuse each
//! other.
//!
//! Layout: kind, protocol version (`u16`), generation (`u64`), node name. The
//! version comes first and is checked before anything after it is parsed, so
//! later versions are free to change the rest.
use crate::buffers::{
    be16, be64, bytes_mut_with_capacity, bytes_view, freeze, put_slice, put_u16, put_u64, put_u8,
};
use crate::names::NodeName;
use crate::text::str_from_utf8;
use crate::wire::{be64_value, lemma_be64_round_trip, read_be64};
use bytes::Bytes;
use vstd::prelude::*;

verus! {

/// The version of the connection protocol (the [`Hello`] exchange and the
/// frame encoding). Peers with a different version refuse each other.
pub const PROTOCOL_VERSION: u16 = 1;

/// The kind byte of a hello.
pub const KIND_HELLO: u8 = 0;

/// Why a hello was refused.
#[derive(Debug, Clone, Copy, PartialEq, Eq)]
pub enum HelloError {
    /// Not a hello, or cut short.
    Invalid,
    /// A hello of another protocol version, which is given.
    Version(u16),
}

/// The first message on every connection, in both directions: who is on the
/// other end.
#[derive(Debug)]
pub struct Hello {
    /// The node that sends it.
    pub node: NodeName,
    /// The sender's generation.
    pub generation: u64,
}

/// What a hello carries, as a value.
pub struct HelloView {
    pub node: Seq<char>,
    pub generation: u64,
}

impl View for Hello {
    type V = HelloView;

    open spec fn view(&self) -> HelloView {
        HelloView { node: self.node@, generation: self.generation }
    }
}

/// The number that two bytes write, most significant first.
pub open spec fn be16_value(b: Seq<u8>) -> u16 {
    ((b[0] as u16) << 8u16) | (b[1] as u16)
}

/// A hello on the wire, in the current version.
pub open spec fn hello_encoding(h: HelloView) -> Seq<u8> {
    seq![KIND_HELLO] + be16(PROTOCOL_VERSION) + be64(h.generation) + vstd::utf8::encode_utf8(h.node)
}

/// What `bytes` are read as. The kind comes first and the version after it;
/// a version other than ours is refused as such, whatever follows it.
pub open spec fn hello_decoding(bytes: Seq<u8>) -> Result<HelloView, HelloError> {
    if bytes.len() < 3 || bytes[0] != KIND_HELLO {
        Err(HelloError::Invalid)
    } else if be16_value(bytes.subrange(1, 3)) != PROTOCOL_VERSION {
        Err(HelloError::Version(be16_value(bytes.subrange(1, 3))))
    } else if bytes.len() < 11 || !vstd::utf8::valid_utf8(bytes.skip(11)) {
        Err(HelloError::Invalid)
    } else {
        Ok(
            HelloView {
                node: vstd::utf8::decode_utf8(bytes.skip(11)),
                generation: be64_value(bytes.subrange(3, 11)),
            },
        )
    }
}

impl Hello {
    /// The hello as it is sent.
    pub fn encode(&self) -> (r: Bytes)
        requires
            vstd::utf8::encode_utf8(self.node@).len() + 11 <= isize::MAX,
        ensures
            bytes_view(r) == hello_encoding(self@),
    {
        let name = self.node.as_str().as_bytes();
        let mut buf = bytes_mut_with_capacity(0);
        put_u8(&mut buf, KIND_HELLO);
        put_u16(&mut buf, PROTOCOL_VERSION);
        put_u64(&mut buf, self.generation);
        put_slice(&mut buf, name);
        freeze(buf)
    }

    /// Reads a hello. Refuses what is not a hello of our version, and tells a
    /// version mismatch apart from anything else.
    pub fn decode(bytes: &[u8]) -> (r: Result<Hello, HelloError>)
        ensures
            match r {
                Err(e) => hello_decoding(bytes@) == Err::<HelloView, HelloError>(e),
                Ok(h) => hello_decoding(bytes@) == Ok::<HelloView, HelloError>(h@),
            },
    {
        if bytes.len() < 1 || bytes[0] != KIND_HELLO || bytes.len() < 3 {
            return Err(HelloError::Invalid);
        }
        assert(bytes@.subrange(1, 3)[0] == bytes@[1] && bytes@.subrange(1, 3)[1] == bytes@[2]);
        let version = ((bytes[1] as u16) << 8u16) | (bytes[2] as u16);
        if version != PROTOCOL_VERSION {
            return Err(HelloError::Version(version));
        }
        if bytes.len() < 11 {
            return Err(HelloError::Invalid);
        }
        let (head, node) = bytes.split_at(11);
        let (_, generation) = head.split_at(3);
        assert(node@ =~= bytes@.skip(11));
        assert(generation@ =~= bytes@.subrange(3, 11));
        match str_from_utf8(node) {
            None => Err(HelloError::Invalid),
            Some(name) => Ok(Hello { node: NodeName::new(name), generation: read_be64(generation) }),
        }
    }
}

/// Reading a hello back gives the node and generation that were sent.
pub proof fn lemma_hello_round_trip(h: HelloView)
    ensures
        hello_decoding(hello_encoding(h)) == Ok::<HelloView, HelloError>(h),
{
    let bytes = hello_encoding(h);
    let name = vstd::utf8::encode_utf8(h.node);
    assert(bytes.skip(11) =~= name);
    assert(bytes.subrange(3, 11) =~= be64(h.generation));
    assert(bytes.subrange(1, 3) =~= be16(PROTOCOL_VERSION));
    lemma_be16_round_trip(PROTOCOL_VERSION);
    vstd::utf8::encode_utf8_valid_utf8(h.node);
    vstd::utf8::encode_utf8_decode_utf8(h.node);
    lemma_be64_round_trip(h.generation, be64(h.generation));
}

/// A hello of any other version is refused as a version mismatch, before
/// anything after the version is looked at.
pub proof fn lemma_other_versions_are_refused(version: u16, rest: Seq<u8>)
    requires
        version != PROTOCOL_VERSION,
    ensures
        hello_decoding(seq![KIND_HELLO] + be16(version) + rest) == Err::<HelloView, HelloError>(
            HelloError::Version(version),
        ),
{
    let bytes = seq![KIND_HELLO] + be16(version) + rest;
    assert(bytes.subrange(1, 3) =~= be16(version));
    lemma_be16_round_trip(version);
}

/// Writing a `u16` out and reading it back gives the same number.
pub proof fn lemma_be16_round_trip(n: u16)
    ensures
        be16_value(be16(n)) == n,
{
    assert(((((n >> 8u16) as u8) as u16) << 8u16) | (((n as u8) as u16)) == n) by (bit_vector);
}

} // verus!
