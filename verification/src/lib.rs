//! Coordination core for a long-running conversational agent.
//!
//! One text input is fanned out to several independent skill workers over a
//! broadcast bus; a readiness barrier keeps the front end from accepting new
//! input until every registered worker has finished the previous round; a
//! process-wide control object tracks liveness and cancellation; and a
//! conversation context manager bounds the dialogue window handed to the
//! inference backend while keeping a durable, id-sorted journal of every turn.

use vstd::prelude::*;

pub mod appctl;
pub mod bus;
pub mod config;
pub mod console;
pub mod conv;
pub mod journal;
pub mod ready;
pub mod status;
pub mod strutil;
pub mod swap;
pub mod tagmap;
pub mod telegram;
pub mod wordimage;

verus! {

/// The errors that the coordination core can surface.
#[derive(Clone, Copy, Debug, PartialEq, Eq, Structural)]
pub enum Error {
    /// The active conversation handle is unknown to the backend: a
    /// programming-invariant violation; the round is aborted.
    ConversationUnknown,
    /// The backend rejected the user's input; the round is aborted but the
    /// user turn stays journaled.
    UnableToHear,
    /// The backend produced no reply; the round is aborted but the user turn
    /// stays journaled.
    UnableToSpeak,
    /// The journal could not be written; history will be lost on restart.
    UnableToWriteJournel,
    /// The journal file exists but does not parse: a fatal startup error.
    MalformedJournal,
    /// The configuration refers to model files that are missing.
    ConfigInvalid,
}

} // verus!
