//! Verified core of a liquidation bot for a lending protocol.

pub mod accounts;
pub mod constants;
pub mod decimal;
pub mod error;
pub mod lending;
pub mod liquidation;
pub mod log;
pub mod markets;
pub mod model;
pub mod oracle;
pub mod performance;
pub mod switchboard;
pub mod wide;
pub mod wire;
