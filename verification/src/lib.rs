//! A small server-side implementation of a RESP-style wire protocol:
//! the message model with its streaming decoder and encoder, the command
//! layer on top of it, and the per-connection decision logic.
//!
//! Every executable function carries a contract over mathematical models
//! (byte sequences, character sequences and message views) and is proved
//! against it.

pub mod decimal;
pub mod text;
pub mod resp;
pub mod decode;
pub mod roundtrip;
pub mod progress;
pub mod cmd;
pub mod conn;
