//! Signaling and peer-lifecycle core of a WebRTC mesh network that uses a
//! Nostr relay as its signaling transport.
//!
//! The decision logic of the two concurrency loops — the signaling loop and
//! the message loop — lives here as verified step functions over plain data;
//! the async plumbing that drives them is ordinary Rust outside this crate.

pub mod types;
pub mod message_loop;
pub mod encoding;
pub mod codec;
pub mod crypto;
pub mod signaling;
