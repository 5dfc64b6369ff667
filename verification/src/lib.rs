//! Reminder scheduling and rendering for user-created events.
//!
//! The crate decides which events are due at a given instant, computes the
//! next instant of recurring reminders, and expands render rules against an
//! event's custom data. It also reads the stored text of rules and custom
//! data, and holds the phases of the scheduler's cycle. Every function is
//! pure: reading and writing the store and delivering notifications are
//! left to the caller.

pub mod events;
pub mod reminder;
pub mod text;
pub mod render;
pub mod scheduler;
pub mod codec;
pub mod payload;
pub mod store;
