//! Core of a chat-bot that forwards translation requests to a remote
//! machine-translation HTTP service.
//!
//! The library holds everything with design content: parsing inbound chat
//! text into a typed command, resolving display names of languages to the
//! codes the service expects, building the request bodies the service takes,
//! navigating its JSON replies, and the dispatcher that turns one command
//! into backend calls and exactly one reply. The transport (HTTP, the chat
//! connection, credentials from the environment) lives outside the library
//! and hands it plain values.

pub mod backend;
pub mod command;
pub mod directory;
pub mod dispatch;
pub mod json;
pub mod text;
