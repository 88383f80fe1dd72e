//! The connection-handling engine of a log fan-out hub.
//!
//! Producers push log events as text; the hub decodes each one, decides from its
//! code whether it is critical, and sends the raw payload on to the consumers whose
//! subscription tier lets it through. Critical events also go to a notification
//! tier.
//!
//! This crate holds the decisions; sockets, tasks and locks belong to the caller.
//!
//! - [`classifier`] decodes a payload, extracts its code and classifies the event.
//!   The two encodings are in [`delimited`] and [`structured`]; [`extract`] guesses
//!   at a code in a text that is no event, for diagnostics.
//! - [`tier`] has the subscription tiers and the handshake that settles one.
//! - [`registry`] is the table of connected consumers.
//! - [`dispatch`] picks the consumers that an event goes to.
//! - [`queue`] is the bounded first-in-first-out queue in front of each consumer.
//! - [`session`] is the life of one connection as a state machine.
//! - [`producer`] and [`structured_text`] write records, and prove that what they
//!   write reads back.
//! - [`event`], [`stamp`] and [`text`] hold the record type, the reading of
//!   timestamps, and the work on characters that the rest shares.

pub mod classifier;
pub mod delimited;
pub mod dispatch;
pub mod event;
pub mod extract;
pub mod producer;
pub mod queue;
pub mod registry;
pub mod session;
pub mod stamp;
pub mod structured;
pub mod structured_text;
pub mod text;
pub mod tier;
