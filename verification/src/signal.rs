use vstd::prelude::*;

verus! {

/// The logic level of the sensor line at one sampled instant.
#[derive(Clone, Copy, Debug, PartialEq, Eq)]
pub enum Signal {
    High,
    Low,
}

/// A decoded measurement: the sensor's two 16-bit quantities, taken from
/// the high/low byte pairs of the frame.
#[derive(Clone, Copy, Debug, PartialEq, Eq)]
pub struct DHT11Reading {
    pub temperature: u16,
    pub humidity: u16,
}

/// Every way a single read attempt can fail, each carrying the evidence
/// observed on the wire.
#[derive(Clone, Copy, Debug, PartialEq, Eq)]
pub enum DHT11ReadingError {
    /// The frame decoded fully but its additive checksum mismatched; the
    /// suspect reading is carried for the caller to inspect.
    ParityFailure(DHT11Reading),
    /// The acknowledge pair was not low-then-high; both observed levels
    /// are carried.
    SensorUnresponsive((Signal, Signal)),
    /// A bit window matched neither valid pattern; its three samples are
    /// carried.
    BadSignalInterpretation((Signal, Signal, Signal)),
    /// The input capability itself failed to deliver a level.
    UnableToReadSignal,
    /// The output capability itself failed to drive the line.
    UnableToWriteSignal,
}

} // verus!
