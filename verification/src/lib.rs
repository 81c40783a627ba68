//! Discrete-event scheduling core of an agent-based traffic simulation, with
//! the state machines of a few editor tools built around it.
//!
//! The scheduler (`scheduler`) keeps a queue of dispatch entries
//! (`event_queue`) beside a table of scheduled commands (`registry`). What it
//! stands for at any moment is an `agenda::Agenda`; each of its methods is
//! proved to take it from one agenda to the next as the definitions there
//! say, and `laws` proves from those definitions what holds of every
//! sequence of calls.
//!
//! Nothing here reads input, draws or prints. The editor tools (`debug`,
//! `mission`, `plugins`) take what happened as plain values and return what
//! is to be done.

pub mod agenda;
pub mod command;
pub mod components;
pub mod debug;
pub mod entry_set;
pub mod event_queue;
pub mod game;
pub mod helpers;
pub mod histogram;
pub mod ids;
pub mod laws;
pub mod mission;
pub mod network;
pub mod plugins;
pub mod registry;
pub mod scheduler;
pub mod text;
pub mod time;
