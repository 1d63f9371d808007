//! A verified core for a chat-bot's reminder feature: a recognizer
//! that turns free-text time phrases into timestamps, an in-memory
//! reminder store with positional deletion, a human-readable duration
//! formatter, and a scrubber for outgoing message text.

pub mod date;
pub mod human;
pub mod laws;
pub mod recognise;
pub mod scan;
pub mod store;
pub mod text;
