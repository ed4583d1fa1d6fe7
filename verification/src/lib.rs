//! Core engine of a chat-platform verification bot.
//!
//! The crate holds the verified logic of the bot: the settings document and
//! its storage encoding, the linked-account table model, the slash-command
//! grammar, and the state transitions each command performs.  All network
//! and database traffic stays outside; the functions here consume the plain
//! values those calls produce and decide what happens next.

pub mod text;
pub mod codec;
pub mod commands;
pub mod engine;
pub mod linked;
pub mod reqs;
pub mod resolve;
pub mod settings;
pub mod utils;
