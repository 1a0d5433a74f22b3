//! Protocol core of a client for IRC-family chat servers, including the
//! "Buzzen" dialect: line framing, tokenizing, body decoding and dispatch.

pub mod body;
pub mod dispatch;
pub mod event;
pub mod framer;
pub mod handshake;
pub mod message;
pub mod style;
pub mod text;
