//! Clustering logic for an actor framework: how nodes name and recognise each
//! other, how their messages are laid out on the wire, how a node's view of
//! the cluster changes as members come, go and become unreachable, and how it
//! decides which connection to keep and when to give up on a peer.

pub mod backend;
pub mod buffers;
pub mod codec;
pub mod driver;
pub mod error;
pub mod fabric;
pub mod frame;
pub mod generation;
pub mod health;
pub mod hello;
pub mod lanes;
pub mod member;
pub mod message;
pub mod names;
pub mod registry;
pub mod restart;
pub mod status;
pub mod text;
pub mod timings;
pub mod tls;
pub mod view;
pub mod wire;
