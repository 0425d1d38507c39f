//! Gmail poller: searches a mailbox, extracts fields from each message with
//! regular expressions, renders a text and hands it to an outbound channel.
//!
//! One job is one query. Jobs share the Google credentials of an agent and
//! keep a cursor of their own: the ids of the messages that they have dealt
//! with, so that nothing is dispatched twice when a message could not be
//! marked as read.
//!
//! The library decides; it performs no input or output. [`tick::Tick`] is a
//! state machine whose [`tick::Action`]s the host program carries out and
//! answers with [`tick::Event`]s.

pub mod calls;
pub mod config;
pub mod errors;
pub mod extract;
pub mod fields;
pub mod handler;
pub mod html;
pub mod json;
pub mod message;
pub mod mime;
pub mod runs;
pub mod seen;
pub mod template;
pub mod text;
pub mod tick;
pub mod urls;
