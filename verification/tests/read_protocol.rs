//! Scenario runs of the whole read protocol against scripted hardware.

use dht11::scripted::{ScriptedDelay, ScriptedInput, ScriptedOutput};
use dht11::{DHT11Reading, DHT11ReadingError, Initialized, Signal, DHT11};

type ScriptedDriver = DHT11<Initialized, ScriptedInput, ScriptedOutput, ScriptedDelay>;

/// The three samples of one bit window: low, then high, then low again for
/// a 0 or still high for a 1.
fn bit_window(bit: bool) -> Vec<Option<Signal>> {
    if bit {
        vec![Some(Signal::Low), Some(Signal::High), Some(Signal::High)]
    } else {
        vec![Some(Signal::Low), Some(Signal::High), Some(Signal::Low)]
    }
}

/// A whole well-timed frame: the low-then-high acknowledge pair, then 16
/// temperature bits, 16 humidity bits and 8 parity bits, each field most
/// significant bit first.
fn frame_levels(temperature: u16, humidity: u16, parity: u8) -> Vec<Option<Signal>> {
    let mut levels = vec![Some(Signal::Low), Some(Signal::High)];
    for i in (0..16).rev() {
        levels.extend(bit_window((temperature >> i) & 1 == 1));
    }
    for i in (0..16).rev() {
        levels.extend(bit_window((humidity >> i) & 1 == 1));
    }
    for i in (0..8).rev() {
        levels.extend(bit_window((parity >> i) & 1 == 1));
    }
    levels
}

/// An initialized driver over the given level script, with both start-pulse
/// drives succeeding.
fn driver_with(levels: Vec<Option<Signal>>) -> ScriptedDriver {
    DHT11::new(
        ScriptedInput::new(levels),
        ScriptedOutput::new(vec![true, true]),
        ScriptedDelay::new(),
    )
    .init()
}

#[test]
fn all_zero_frame_reads_zero() {
    let mut driver = driver_with(frame_levels(0, 0, 0));
    let result = driver.read();
    assert_eq!(
        result,
        Ok(DHT11Reading {
            temperature: 0,
            humidity: 0
        })
    );
}

#[test]
fn valid_frame_decodes_exact_fields() {
    let mut driver = driver_with(frame_levels(2, 3, 5));
    let result = driver.read();
    assert_eq!(
        result,
        Ok(DHT11Reading {
            temperature: 2,
            humidity: 3
        })
    );
}

#[test]
fn larger_valid_frame_decodes_exact_fields() {
    // 23 + 45 == 68 keeps the additive checksum inside its eight bits.
    let mut driver = driver_with(frame_levels(23, 45, 68));
    let result = driver.read();
    assert_eq!(
        result,
        Ok(DHT11Reading {
            temperature: 23,
            humidity: 45
        })
    );
}

#[test]
fn nonzero_parity_with_zero_fields_is_parity_failure() {
    let mut driver = driver_with(frame_levels(0, 0, 1));
    let result = driver.read();
    assert_eq!(
        result,
        Err(DHT11ReadingError::ParityFailure(DHT11Reading {
            temperature: 0,
            humidity: 0
        }))
    );
}

#[test]
fn checksum_mismatch_carries_decoded_reading() {
    let mut driver = driver_with(frame_levels(1, 2, 0));
    let result = driver.read();
    assert_eq!(
        result,
        Err(DHT11ReadingError::ParityFailure(DHT11Reading {
            temperature: 1,
            humidity: 2
        }))
    );
}

#[test]
fn wide_fields_decode_through_all_sixteen_bits() {
    // 300 does not fit one byte, so a wrong bit order or width would break
    // the decoded value; the sum 301 exceeds the 8-bit parity field, so the
    // reading comes back inside a checksum failure.
    let mut driver = driver_with(frame_levels(300, 1, 0));
    let result = driver.read();
    assert_eq!(
        result,
        Err(DHT11ReadingError::ParityFailure(DHT11Reading {
            temperature: 300,
            humidity: 1
        }))
    );
}

#[test]
fn high_high_ack_is_sensor_unresponsive() {
    let mut driver = driver_with(vec![Some(Signal::High), Some(Signal::High)]);
    let result = driver.read();
    assert_eq!(
        result,
        Err(DHT11ReadingError::SensorUnresponsive((
            Signal::High,
            Signal::High
        )))
    );
}

#[test]
fn low_low_ack_is_sensor_unresponsive() {
    let mut driver = driver_with(vec![Some(Signal::Low), Some(Signal::Low)]);
    let result = driver.read();
    assert_eq!(
        result,
        Err(DHT11ReadingError::SensorUnresponsive((
            Signal::Low,
            Signal::Low
        )))
    );
}

#[test]
fn failed_ack_samples_exactly_twice() {
    // A full frame's worth of windows sits behind the bad acknowledge; none
    // of it may be sampled.
    let mut levels = vec![Some(Signal::High), Some(Signal::Low)];
    for _ in 0..40 {
        levels.extend(bit_window(false));
    }
    let mut driver = driver_with(levels);
    let result = driver.read();
    assert_eq!(
        result,
        Err(DHT11ReadingError::SensorUnresponsive((
            Signal::High,
            Signal::Low
        )))
    );
    let (input, _, _) = driver.into_parts();
    assert_eq!(input.remaining(), 120);
}

#[test]
fn bad_first_window_aborts_with_its_triple() {
    let mut levels = vec![Some(Signal::Low), Some(Signal::High)];
    levels.extend(vec![
        Some(Signal::High),
        Some(Signal::High),
        Some(Signal::Low),
    ]);
    for _ in 0..39 {
        levels.extend(bit_window(false));
    }
    let total = levels.len();
    let mut driver = driver_with(levels);
    let result = driver.read();
    assert_eq!(
        result,
        Err(DHT11ReadingError::BadSignalInterpretation((
            Signal::High,
            Signal::High,
            Signal::Low
        )))
    );
    let (input, _, _) = driver.into_parts();
    // The acknowledge pair and exactly one window were consumed.
    assert_eq!(input.remaining(), total - 5);
}

#[test]
fn bad_window_mid_frame_stops_sampling() {
    let mut levels = vec![Some(Signal::Low), Some(Signal::High)];
    for _ in 0..5 {
        levels.extend(bit_window(true));
    }
    levels.extend(vec![Some(Signal::Low), Some(Signal::Low), Some(Signal::Low)]);
    for _ in 0..34 {
        levels.extend(bit_window(false));
    }
    let total = levels.len();
    let mut driver = driver_with(levels);
    let result = driver.read();
    assert_eq!(
        result,
        Err(DHT11ReadingError::BadSignalInterpretation((
            Signal::Low,
            Signal::Low,
            Signal::Low
        )))
    );
    let (input, _, _) = driver.into_parts();
    // The acknowledge pair, five whole windows and the bad one were consumed.
    assert_eq!(input.remaining(), total - (2 + 5 * 3 + 3));
}

#[test]
fn exhausted_script_is_unable_to_read() {
    let mut driver = driver_with(Vec::new());
    let result = driver.read();
    assert_eq!(result, Err(DHT11ReadingError::UnableToReadSignal));
}

#[test]
fn hardware_read_fault_mid_window_is_unable_to_read() {
    let mut levels = frame_levels(0, 0, 0);
    // Break the second sample of the third bit window.
    levels[2 + 3 * 2 + 1] = None;
    let mut driver = driver_with(levels);
    let result = driver.read();
    assert_eq!(result, Err(DHT11ReadingError::UnableToReadSignal));
}

#[test]
fn failed_low_drive_is_unable_to_write() {
    let levels = frame_levels(0, 0, 0);
    let total = levels.len();
    let mut driver = DHT11::new(
        ScriptedInput::new(levels),
        ScriptedOutput::new(vec![false]),
        ScriptedDelay::new(),
    )
    .init();
    let result = driver.read();
    assert_eq!(result, Err(DHT11ReadingError::UnableToWriteSignal));
    let (input, _, delay) = driver.into_parts();
    // Nothing was sampled and only the stabilization wait happened.
    assert_eq!(input.remaining(), total);
    assert_eq!(delay.history(), &vec![1000]);
}

#[test]
fn failed_high_drive_is_unable_to_write() {
    let mut driver = DHT11::new(
        ScriptedInput::new(frame_levels(0, 0, 0)),
        ScriptedOutput::new(vec![true, false]),
        ScriptedDelay::new(),
    )
    .init();
    let result = driver.read();
    assert_eq!(result, Err(DHT11ReadingError::UnableToWriteSignal));
    let (_, _, delay) = driver.into_parts();
    // The 18 ms hold happened between the two drives.
    assert_eq!(delay.history(), &vec![1000, 18]);
}

#[test]
fn identical_scripts_read_identically() {
    // Two identical frames back to back, read twice by the same driver: the
    // driver holds no carry-over state, so both reads decode alike.
    let mut levels = frame_levels(7, 8, 15);
    levels.extend(frame_levels(7, 8, 15));
    let mut driver = DHT11::new(
        ScriptedInput::new(levels),
        ScriptedOutput::new(vec![true, true, true, true]),
        ScriptedDelay::new(),
    )
    .init();
    let first = driver.read();
    let second = driver.read();
    assert_eq!(first, second);
    assert_eq!(
        first,
        Ok(DHT11Reading {
            temperature: 7,
            humidity: 8
        })
    );
}

#[test]
fn full_read_performs_the_exact_delay_sequence() {
    let mut driver = driver_with(frame_levels(23, 45, 68));
    let result = driver.read();
    assert!(result.is_ok());
    let (_, _, delay) = driver.into_parts();
    let mut expected = vec![1000, 18, 80, 80, 5];
    for _ in 0..40 {
        expected.push(50);
        expected.push(28);
    }
    assert_eq!(delay.history(), &expected);
}
