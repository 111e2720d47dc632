//! Persistence and state-application core of a replicated document store: a persistent
//! log of opaque entries with the per-node voting state, and a document state machine
//! with undo records, both driven by an outside consensus engine.

pub mod document;
pub mod codec;
pub mod message;
pub mod doclog;
pub mod undo;
pub mod statemachine;
pub mod login;
pub mod config;
