//! A chat-triggered weather lookup assistant, verified.
//!
//! The library holds everything the bot decides and computes: splitting an
//! inbound message into command and argument, the per-user location store
//! with its persisted text format, building the provider request URLs, and
//! the defensive interpretation of the providers' JSON replies. The thin
//! binary around it performs the chat and HTTP transport and hands plain
//! values in and out.

pub mod dispatch;
pub mod handler;
pub mod interpret;
pub mod json;
pub mod num;
pub mod store;
pub mod strutil;
pub mod urlenc;
