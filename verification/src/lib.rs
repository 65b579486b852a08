//! Driver for a single-wire, timing-encoded humidity/temperature sensor.
//!
//! The driver owns three hardware capabilities — a digital input line, a
//! digital output line and a blocking millisecond delay — and performs one
//! blocking read at a time: start pulse, acknowledge handshake, forty timed
//! bit windows, additive checksum. Every deviation from the expected timing
//! or levels is reported as a distinct error value.
//!
//! The capabilities are traits whose specifications model the hardware as
//! scripts of future outcomes, so the whole protocol is verified against
//! every possible sequence of line levels, and scripted implementations
//! allow deterministic, hardware-free runs.

pub mod driver;
pub mod frame;
pub mod hal;
pub mod scripted;
pub mod signal;

pub use driver::{Initialized, Uninitialized, DHT11};
pub use signal::{DHT11Reading, DHT11ReadingError, Signal};
