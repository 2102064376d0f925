//! Activity timers: mutually exclusive activity slots, a master timer that
//! mirrors whether any slot runs, a ledger of start/stop transitions and its
//! export as comma-separated text.
//!
//! All times are whole milliseconds read from a monotonic [`Clock`]. Every
//! operation that needs the time comes in two forms: one that takes the
//! reading as an argument and has an exact contract, and one that reads the
//! clock itself.

mod clock;
mod coordinator;
mod csv;
mod export;
pub mod laws;
mod ledger;
mod text;
mod timer;

pub use clock::Clock;
pub use coordinator::{Action, Coordinator, CoordinatorModel, Msg};
pub use csv::render;
pub use export::{export_filename, proposed_filename};
pub use ledger::{HistoryEvent, HistoryLedger, Row};
pub use timer::{TimerModel, TimerStorage};
