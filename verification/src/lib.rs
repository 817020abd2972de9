//! A personal agenda: short events with an optional deadline, tracked by a
//! ledger of live identifiers.

pub mod event;
pub mod ledger;
pub mod order;
pub mod parse;
pub mod service;
pub mod text;
pub mod timestamp;

pub use event::{write_datetime, Event};
pub use ledger::EventLog;
pub use timestamp::Timestamp;
