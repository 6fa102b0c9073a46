//! A proposal board driven by short text commands: people submit proposals,
//! list them by votes, and vote for one.
//!
//! A line of text becomes a [`command::Command`], a command becomes at most
//! one operation on the store, and the outcome of that operation becomes the
//! reply. The store's operations are atomic steps, so what is proved here of
//! sequences of operations holds however commands interleave.
//!
//! - [`text`]: case folding and decimal numerals.
//! - [`command`]: the command table, the parser and the help text.
//! - [`store`]: proposals, and the store that keeps them in memory.
//! - [`gateway`]: requests to a store and their outcomes.
//! - [`executor`]: from a command to a request, from an outcome to a reply.
//! - [`dispatch`]: from a line to a reply.
//! - [`laws`]: what holds of the board as a whole.

pub mod command;
pub mod dispatch;
pub mod executor;
pub mod gateway;
pub mod laws;
pub mod store;
pub mod text;
