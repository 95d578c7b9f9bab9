//! Encrypted room-based chat: the transport and room envelopes, the time-windowed
//! authentication token, the server's room registry with its broadcast logs, and the
//! client and server protocol state machines.

pub mod primitives;
pub mod bytes;
pub mod envelope;
pub mod room_cipher;
pub mod auth;
pub mod invite;
pub mod broadcast;
pub mod registry;
pub mod text;
pub mod server;
pub mod handshake;
pub mod client;
pub mod chat;
pub mod editor;
