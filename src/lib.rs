//! An editor model for directories of CSV tables: column type inference,
//! tables with a cursor and a row selection, a store that loads tables and
//! plans their archived snapshots, and the screen state machine.

pub mod config;
pub mod controller;
pub mod inference;
pub mod list;
pub mod model;
pub mod records;
pub mod stamp;
pub mod store;
