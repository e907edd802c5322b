//! The heart of a personal task tracker: its entities, the rules by which a
//! store of them changes, the dates on which repeating tasks come back, the
//! reminders that fall due, and the figures drawn from what was completed.

pub mod calendar;
pub mod database;
pub mod error;
pub mod ident;
pub mod models;
pub mod recurrence;
pub mod reminders;
pub mod rows;
pub mod schema;
pub mod sorting;
pub mod streaks;
pub mod tables;
