//! A deterministic market-simulation engine.
//!
//! A clock-driven tick loop matches resting orders against a time-keyed store
//! of top-of-book quotes, one full fill per order, and a session registry
//! exposes isolated backtests over named datasets.

pub mod clock;
pub mod jura;
pub mod penelope;
pub mod trading;
pub mod uist;
