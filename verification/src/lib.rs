//! Core of a scripted 2D scene player: a cooperative task scheduler, one-shot
//! latches, the authoritative entity/screen state machine, and the append-only
//! update log that makes state changes observable.

pub mod command;
pub mod fixmath;
pub mod gamedata;
pub mod input;
pub mod latch;
pub mod logic;
pub mod sched;

pub use input::Input;
pub use latch::LatchStore;
pub use logic::Logic;
pub use sched::{Command, LockReason, Scheduler, YieldResult};
