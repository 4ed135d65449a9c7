//! A nutrition tracker's core: a catalog of basic and composite foods, a
//! per-day consumption ledger with undo, and a history of profile snapshots.

pub mod text;
pub mod keys;
pub mod food;
pub mod catalog;
pub mod ledger;
pub mod storage;
pub mod profile;
pub mod users;
pub mod calendar;
pub mod laws;
