//! Prepared statements for the MySQL binary protocol: statement metadata,
//! the per-connection statement cache, parameter binding and the decisions
//! of the prepare / execute / close exchanges.

pub mod wire;
pub mod stmt;
pub mod cache;
pub mod binder;
pub mod driver;
