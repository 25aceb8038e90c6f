//! The protocol core of a chat client: the wire codec for the envelope that
//! client and server exchange, and the state machine that folds inbound
//! envelopes into a roster and a message log.
//!
//! Nothing here performs input or output. The caller owns the transport and
//! the screen: it hands inbound frames and the user's input to [`Chat`] and
//! carries out the [`Effect`] that comes back.

pub mod chat;
pub mod codec;
pub mod document;
pub mod grammar;
pub mod quote;
pub mod render;
pub mod scan;
pub mod text;
pub mod written;

pub use crate::chat::{
    avatar_url, clears_input, compose, register_frame, Chat, Effect, Msg, SendError, UserProfile,
};
pub use crate::codec::{
    decode, decode_chat_payload, encode, DecodeError, MessageData, MsgTypes, WebSocketMessage,
};
pub use crate::render::{render_body, Body};
