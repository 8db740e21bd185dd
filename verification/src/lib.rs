//! Core of a streaming chat client: a conversation controller that owns the
//! message history, applies streamed response fragments in arrival order,
//! derives display blocks from message text, and keeps an on-disk JSON copy of
//! the conversation consistent with the in-memory state.

pub mod codec;
pub mod controller;
pub mod listing;
pub mod model;
pub mod render;
pub mod text;
