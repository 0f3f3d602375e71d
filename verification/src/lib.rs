//! Verified core of a GPU fan-control daemon.
//!
//! The crate holds the fan-curve control engine (evaluating a user curve at a
//! temperature, lowering it into the hardware's fixed-point representation,
//! and validating it) together with the decision logic of the daemon's
//! event-orchestration tasks: the device-event debouncer, the shutdown
//! coordinator, the config hot-reload bridge and the startup uptime gate.
//! All temperature and ratio values are carried as fixed-point integers
//! (millidegrees and thousandths), so every computation here is exact.

pub mod curve;
pub mod debounce;
pub mod engine;
pub mod error;
pub mod reload;
pub mod shutdown;
pub mod text;
pub mod uptime;
