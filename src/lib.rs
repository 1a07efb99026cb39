//! A terminal client for the arXiv search API: query encoding, feed
//! extraction, the modal input state machine and the event timing rules,
//! all verified.
pub mod arxiv;
pub mod events;
pub mod state;
pub mod text;
