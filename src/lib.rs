//! A task-list synchronisation library: a two-way reconciliation engine over
//! calendars of tasks, and the decision logic of a CalDAV discovery client.

pub mod cache;
pub mod calendar;
pub mod client;
pub mod item;
pub mod provider;
pub mod sync;
pub mod tasks;
pub mod xml;
