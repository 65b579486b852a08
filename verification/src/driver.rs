//! The driver itself: a typestate pair around the three hardware
//! capabilities, and the single blocking `read` operation whose outcome,
//! sample consumption and delay log are pinned down exactly by the frame
//! model.

use crate::frame::{
    consumed, field_val, lemma_consumed_add, lemma_consumed_few, lemma_consumed_skip,
    lemma_field_shift, lemma_field_val_width, lemma_win_shift, lemma_wins_err_stable,
    lemma_wins_ok_len, lemma_wins_shift, lemma_wins_used_bounds, sample_at, win_bit, win_delays,
    win_res, win_used, wins_delays_upto, wins_res_upto, wins_used_upto,
};
use crate::hal::{head_drive, head_level, rest_of, Delay, InputLine, OutputLine};
use crate::signal::{DHT11Reading, DHT11ReadingError, Signal};
use core::marker::PhantomData;
use vstd::prelude::*;

verus! {

/// Whether the start pulse goes out whole: the line is driven low, held
/// 18 ms, then released high, and both drives take effect.
pub open spec fn start_ok(dr: Seq<bool>) -> bool {
    head_drive(dr) && head_drive(rest_of(dr))
}

/// How many drive outcomes the start pulse consumes: the release is not
/// attempted when already driving low fails.
pub open spec fn start_used(dr: Seq<bool>) -> int {
    if head_drive(dr) {
        2
    } else {
        1
    }
}

/// The delays the start pulse performs: the 18 ms hold happens only after
/// the line was successfully driven low.
pub open spec fn start_delays(dr: Seq<bool>) -> Seq<u32> {
    if head_drive(dr) {
        seq![18u32]
    } else {
        Seq::empty()
    }
}

/// Whether the acknowledge handshake shows the expected low-then-high pair.
pub open spec fn ack_ok(lv: Seq<Option<Signal>>) -> bool {
    sample_at(lv, 0) == Some(Signal::Low) && sample_at(lv, 1) == Some(Signal::High)
}

/// How many bit windows one accumulation decodes: at most 32, the width of
/// its accumulator.
pub open spec fn capped_bits(number_of_bits: u32) -> int {
    if number_of_bits <= 32 {
        number_of_bits as int
    } else {
        32
    }
}

/// The outcome of one whole read attempt, as a function of the hardware's
/// response scripts alone: start pulse, acknowledge pair, forty bit windows
/// split 16 + 16 + 8 into temperature, humidity and parity, and the
/// additive checksum `temperature + humidity == parity` over the decoded
/// fields.
pub open spec fn read_result(lv: Seq<Option<Signal>>, dr: Seq<bool>) -> Result<
    DHT11Reading,
    DHT11ReadingError,
> {
    if !start_ok(dr) {
        Err(DHT11ReadingError::UnableToWriteSignal)
    } else {
        match (sample_at(lv, 0), sample_at(lv, 1)) {
            (Some(a), Some(b)) => {
                if !(a == Signal::Low && b == Signal::High) {
                    Err(DHT11ReadingError::SensorUnresponsive((a, b)))
                } else {
                    let s = lv.skip(2);
                    match wins_res_upto(s, 40) {
                        Err(e) => Err(e),
                        Ok(_) => {
                            let t = field_val(s, 0, 16);
                            let h = field_val(s, 16, 32);
                            let p = field_val(s, 32, 40);
                            let reading = DHT11Reading {
                                temperature: t as u16,
                                humidity: h as u16,
                            };
                            if t + h == p {
                                Ok(reading)
                            } else {
                                Err(DHT11ReadingError::ParityFailure(reading))
                            }
                        },
                    }
                }
            },
            _ => Err(DHT11ReadingError::UnableToReadSignal),
        }
    }
}

/// How many scripted levels one read attempt consumes; in particular, a
/// failed handshake samples exactly twice, and a deviating bit window stops
/// all further sampling.
pub open spec fn levels_used(lv: Seq<Option<Signal>>, dr: Seq<bool>) -> int {
    if !start_ok(dr) {
        0
    } else if sample_at(lv, 0) is None {
        1
    } else if sample_at(lv, 1) is None {
        2
    } else if !ack_ok(lv) {
        2
    } else {
        2 + wins_used_upto(lv.skip(2), 40)
    }
}

/// The exact delays one read attempt performs, in order: the 18 ms start
/// pulse hold, 80 ms before each acknowledge sample, the 5 ms settle, and
/// each bit window's 50 ms and 28 ms, as far as the attempt gets.
pub open spec fn read_delays(lv: Seq<Option<Signal>>, dr: Seq<bool>) -> Seq<u32> {
    if !head_drive(dr) {
        Seq::empty()
    } else if !head_drive(rest_of(dr)) {
        seq![18u32]
    } else if sample_at(lv, 0) is None {
        seq![18u32, 80u32]
    } else if sample_at(lv, 1) is None {
        seq![18u32, 80u32, 80u32]
    } else if !ack_ok(lv) {
        seq![18u32, 80u32, 80u32]
    } else {
        seq![18u32, 80u32, 80u32, 5u32] + wins_delays_upto(lv.skip(2), 40)
    }
}

/// Every frame whose forty bit windows all decode and whose additive
/// checksum `temperature + humidity == parity` holds yields `Ok` with
/// exactly the two decoded 16-bit fields.
pub proof fn lemma_valid_frame_decodes(lv: Seq<Option<Signal>>, dr: Seq<bool>)
    requires
        start_ok(dr),
        ack_ok(lv),
        wins_res_upto(lv.skip(2), 40) is Ok,
        field_val(lv.skip(2), 0, 16) + field_val(lv.skip(2), 16, 32) == field_val(
            lv.skip(2),
            32,
            40,
        ),
    ensures
        read_result(lv, dr) == Ok::<DHT11Reading, DHT11ReadingError>(
            DHT11Reading {
                temperature: field_val(lv.skip(2), 0, 16) as u16,
                humidity: field_val(lv.skip(2), 16, 32) as u16,
            },
        ),
{
}

/// A frame that decodes whole but fails its checksum yields the parity
/// failure, carrying the reading decoded from the bit stream rather than a
/// zero or default one.
pub proof fn lemma_checksum_failure_carries_reading(lv: Seq<Option<Signal>>, dr: Seq<bool>)
    requires
        start_ok(dr),
        ack_ok(lv),
        wins_res_upto(lv.skip(2), 40) is Ok,
        field_val(lv.skip(2), 0, 16) + field_val(lv.skip(2), 16, 32) != field_val(
            lv.skip(2),
            32,
            40,
        ),
    ensures
        read_result(lv, dr) == Err::<DHT11Reading, DHT11ReadingError>(
            DHT11ReadingError::ParityFailure(
                DHT11Reading {
                    temperature: field_val(lv.skip(2), 0, 16) as u16,
                    humidity: field_val(lv.skip(2), 16, 32) as u16,
                },
            ),
        ),
{
}

/// An acknowledge pair other than low-then-high fails the read with both
/// observed levels, and exactly two levels are sampled: the bit-decoding
/// loop is never entered.
pub proof fn lemma_bad_ack_stops_read(lv: Seq<Option<Signal>>, dr: Seq<bool>, a: Signal, b: Signal)
    requires
        start_ok(dr),
        sample_at(lv, 0) == Some(a),
        sample_at(lv, 1) == Some(b),
        !(a == Signal::Low && b == Signal::High),
    ensures
        read_result(lv, dr) == Err::<DHT11Reading, DHT11ReadingError>(
            DHT11ReadingError::SensorUnresponsive((a, b)),
        ),
        levels_used(lv, dr) == 2,
{
}

/// The first bit window that deviates aborts the read with exactly that
/// window's outcome — its own three samples on a bad triple — and no later
/// window's samples are consumed.
pub proof fn lemma_bad_window_stops_read(lv: Seq<Option<Signal>>, dr: Seq<bool>, k: int)
    requires
        start_ok(dr),
        ack_ok(lv),
        0 <= k < 40,
        wins_res_upto(lv.skip(2), k) is Ok,
        win_res(lv.skip(2), k) is Err,
    ensures
        read_result(lv, dr) == Err::<DHT11Reading, DHT11ReadingError>(
            win_res(lv.skip(2), k)->Err_0,
        ),
        levels_used(lv, dr) == 2 + 3 * k + win_used(lv.skip(2), k),
        win_used(lv.skip(2), k) <= 3,
{
    let s = lv.skip(2);
    lemma_wins_ok_len(s, k);
    assert(wins_res_upto(s, k + 1) is Err);
    lemma_wins_err_stable(s, k + 1, 40);
    assert(wins_used_upto(s, k + 1) == 3 * k + win_used(s, k));
}

/// A read's outcome is a function of the hardware's responses alone: two
/// attempts presented with identical level and drive scripts decode
/// identically, consume the same samples and perform the same delays — the
/// driver carries no state from one read into the next.
pub proof fn lemma_read_deterministic(
    lv1: Seq<Option<Signal>>,
    dr1: Seq<bool>,
    lv2: Seq<Option<Signal>>,
    dr2: Seq<bool>,
)
    requires
        lv1 == lv2,
        dr1 == dr2,
    ensures
        read_result(lv1, dr1) == read_result(lv2, dr2),
        levels_used(lv1, dr1) == levels_used(lv2, dr2),
        read_delays(lv1, dr1) == read_delays(lv2, dr2),
{
}

/// Typestate of a driver whose one-time stabilization wait has happened.
pub struct Initialized;

/// Typestate of a freshly constructed driver.
pub struct Uninitialized;

/// The sensor driver: an input line, an output line and a delay source,
/// with a typestate parameter that makes reading before the mandatory
/// post-power-up stabilization wait a type error.
pub struct DHT11<INIT, I: InputLine, O: OutputLine, D: Delay>(I, O, D, PhantomData<INIT>);

impl<INIT, I: InputLine, O: OutputLine, D: Delay> DHT11<INIT, I, O, D> {
    /// The outcomes of the input line's future reads.
    pub closed spec fn levels(&self) -> Seq<Option<Signal>> {
        self.0.levels()
    }

    /// The outcomes of the output line's future drives.
    pub closed spec fn drives(&self) -> Seq<bool> {
        self.1.drives()
    }

    /// The log of every wait performed so far.
    pub closed spec fn waited(&self) -> Seq<u32> {
        self.2.waited()
    }

    /// Give the three capabilities back, e.g. to inspect what a scripted
    /// run consumed and waited.
    pub fn into_parts(self) -> (r: (I, O, D))
        ensures
            r.0.levels() == self.levels(),
            r.1.drives() == self.drives(),
            r.2.waited() == self.waited(),
    {
        let DHT11(input, output, delay, _marker) = self;
        (input, output, delay)
    }
}

impl<I: InputLine, O: OutputLine, D: Delay> DHT11<Uninitialized, I, O, D> {
    pub fn new(input: I, output: O, delay: D) -> (r: Self)
        ensures
            r.levels() == input.levels(),
            r.drives() == output.drives(),
            r.waited() == delay.waited(),
    {
        DHT11(input, output, delay, PhantomData)
    }

    /// Perform the one-time 1-second stabilization wait; only the driver
    /// this returns can read.
    pub fn init(self) -> (r: DHT11<Initialized, I, O, D>)
        ensures
            r.levels() == self.levels(),
            r.drives() == self.drives(),
            r.waited() == self.waited().push(1000u32),
    {
        let DHT11(input, output, mut delay, _marker) = self;
        delay.wait_ms(1000);
        DHT11(input, output, delay, PhantomData)
    }
}

impl<I: InputLine, O: OutputLine, D: Delay> DHT11<Initialized, I, O, D> {
    /// Read the line's level right now; a failed hardware read is reported
    /// rather than defaulted, since a wrong default would corrupt bit
    /// decoding without detection.
    fn read_signal(&mut self) -> (r: Result<Signal, DHT11ReadingError>)
        ensures
            final(self).levels() == rest_of(old(self).levels()),
            final(self).drives() == old(self).drives(),
            final(self).waited() == old(self).waited(),
            r == (match head_level(old(self).levels()) {
                Some(s) => Ok::<Signal, DHT11ReadingError>(s),
                None => Err::<Signal, DHT11ReadingError>(DHT11ReadingError::UnableToReadSignal),
            }),
    {
        match self.0.sample() {
            Some(s) => Ok(s),
            None => Err(DHT11ReadingError::UnableToReadSignal),
        }
    }

    /// Block for `after_ms` milliseconds, then read the line's level.
    fn read_signal_after(&mut self, after_ms: u32) -> (r: Result<Signal, DHT11ReadingError>)
        ensures
            final(self).levels() == rest_of(old(self).levels()),
            final(self).drives() == old(self).drives(),
            final(self).waited() == old(self).waited().push(after_ms),
            r == (match head_level(old(self).levels()) {
                Some(s) => Ok::<Signal, DHT11ReadingError>(s),
                None => Err::<Signal, DHT11ReadingError>(DHT11ReadingError::UnableToReadSignal),
            }),
    {
        self.2.wait_ms(after_ms);
        self.read_signal()
    }

    /// Ask the sensor for a frame: drive the line low, hold it 18 ms, then
    /// release it high.
    fn write_sensor_read_start(&mut self) -> (r: Result<(), DHT11ReadingError>)
        ensures
            final(self).levels() == old(self).levels(),
            final(self).drives() == consumed(old(self).drives(), start_used(old(self).drives())),
            final(self).waited() == old(self).waited() + start_delays(old(self).drives()),
            r == (if start_ok(old(self).drives()) {
                Ok::<(), DHT11ReadingError>(())
            } else {
                Err::<(), DHT11ReadingError>(DHT11ReadingError::UnableToWriteSignal)
            }),
    {
        proof {
            lemma_consumed_few(old(self).drives());
            assert(old(self).waited() + Seq::<u32>::empty() =~= old(self).waited());
            assert(old(self).waited() + seq![18u32] =~= old(self).waited().push(18u32));
        }
        if !self.1.set_low() {
            return Err(DHT11ReadingError::UnableToWriteSignal);
        }
        self.2.wait_ms(18);
        if !self.1.set_high() {
            return Err(DHT11ReadingError::UnableToWriteSignal);
        }
        Ok(())
    }

    /// Decode one bit window. A window always starts low; the bit is told
    /// by how long the line then stays high: back to low by the third
    /// sample is a 0, still high is a 1.
    fn read_sensor_bit(&mut self) -> (r: Result<u32, DHT11ReadingError>)
        ensures
            final(self).drives() == old(self).drives(),
            final(self).levels() == consumed(
                old(self).levels(),
                win_used(old(self).levels(), 0),
            ),
            final(self).waited() == old(self).waited() + win_delays(old(self).levels(), 0),
            r == (match win_res(old(self).levels(), 0) {
                Ok(b) => Ok::<u32, DHT11ReadingError>(
                    if b {
                        1u32
                    } else {
                        0u32
                    },
                ),
                Err(e) => Err::<u32, DHT11ReadingError>(e),
            }),
    {
        proof {
            let lv = old(self).levels();
            lemma_consumed_few(lv);
            assert(sample_at(lv, 0) == head_level(lv));
            assert(sample_at(lv, 1) == head_level(rest_of(lv)));
            assert(sample_at(lv, 2) == head_level(rest_of(rest_of(lv))));
            assert(old(self).waited() + Seq::<u32>::empty() =~= old(self).waited());
            assert(old(self).waited() + seq![50u32] =~= old(self).waited().push(50u32));
            assert(old(self).waited() + seq![50u32, 28u32] =~= old(self).waited().push(
                50u32,
            ).push(28u32));
        }
        let first = self.read_signal()?;
        let second = self.read_signal_after(50)?;
        let third = self.read_signal_after(28)?;
        match (first, second, third) {
            (Signal::Low, Signal::High, Signal::Low) => Ok(0),
            (Signal::Low, Signal::High, Signal::High) => Ok(1),
            signals => Err(DHT11ReadingError::BadSignalInterpretation(signals)),
        }
    }

    /// Decode `number_of_bits` consecutive bit windows (at most 32) into an
    /// integer, most significant bit first, stopping at the first window
    /// that deviates.
    fn read_sensor_bits(&mut self, number_of_bits: u32) -> (r: Result<u32, DHT11ReadingError>)
        ensures
            final(self).drives() == old(self).drives(),
            final(self).levels() == consumed(
                old(self).levels(),
                wins_used_upto(old(self).levels(), capped_bits(number_of_bits)),
            ),
            final(self).waited() == old(self).waited() + wins_delays_upto(
                old(self).levels(),
                capped_bits(number_of_bits),
            ),
            r == (match wins_res_upto(old(self).levels(), capped_bits(number_of_bits)) {
                Ok(_) => Ok::<u32, DHT11ReadingError>(
                    field_val(old(self).levels(), 0, capped_bits(number_of_bits)) as u32,
                ),
                Err(e) => Err::<u32, DHT11ReadingError>(e),
            }),
    {
        let mut result: u32 = 0;
        let cap: u32 = if number_of_bits < 32 {
            number_of_bits
        } else {
            32
        };
        let ghost lv = old(self).levels();
        let ghost d0 = old(self).drives();
        let ghost w0 = old(self).waited();
        proof {
            assert(lv.skip(0) =~= lv);
            assert(w0 + wins_delays_upto(lv, 0) =~= w0);
        }
        let mut bit_index: u32 = 0;
        while bit_index < cap
            invariant
                bit_index <= cap,
                cap as int == capped_bits(number_of_bits),
                lv == old(self).levels(),
                d0 == old(self).drives(),
                w0 == old(self).waited(),
                wins_res_upto(lv, bit_index as int) is Ok,
                3 * bit_index as int <= lv.len(),
                result == field_val(lv, 0, bit_index as int),
                self.levels() == lv.skip(3 * bit_index as int),
                self.drives() == d0,
                self.waited() == w0 + wins_delays_upto(lv, bit_index as int),
            decreases cap - bit_index,
        {
            let ghost i = bit_index as int;
            let ghost cur = self.levels();
            let ghost wcur = self.waited();
            proof {
                lemma_wins_ok_len(lv, i);
                lemma_win_shift(lv, i, 0);
                assert(win_res(cur, 0) == win_res(lv, i));
            }
            match self.read_sensor_bit() {
                Ok(bit) => {
                    proof {
                        assert(win_res(lv, i) is Ok);
                        assert(wins_res_upto(lv, i + 1) is Ok);
                        lemma_wins_ok_len(lv, i + 1);
                        lemma_consumed_few(cur);
                        lemma_consumed_skip(cur, 3);
                        assert(self.levels() == cur.skip(3));
                        assert(cur.skip(3) =~= lv.skip(3 * (i + 1)));
                        assert(bit as nat == win_bit(lv, i));
                        assert(field_val(lv, 0, i + 1) == field_val(lv, 0, i) * 2 + win_bit(
                            lv,
                            i,
                        ));
                        lemma_field_val_width(lv, 0, i + 1);
                        assert(wcur + win_delays(cur, 0) =~= w0 + wins_delays_upto(lv, i + 1));
                    }
                    result = result * 2 + bit;
                    bit_index = bit_index + 1;
                },
                Err(e) => {
                    proof {
                        assert(win_res(lv, i) == Err::<bool, DHT11ReadingError>(e));
                        assert(wins_res_upto(lv, i + 1) == Err::<(), DHT11ReadingError>(e));
                        lemma_wins_err_stable(lv, i + 1, cap as int);
                        assert(wins_used_upto(lv, i + 1) == 3 * i + win_used(lv, i));
                        lemma_consumed_add(lv, 3 * i, win_used(lv, i));
                        lemma_consumed_skip(lv, 3 * i);
                        assert(win_used(cur, 0) == win_used(lv, i));
                        assert(self.levels() == consumed(lv, wins_used_upto(lv, cap as int)));
                        assert(wcur + win_delays(cur, 0) =~= w0 + wins_delays_upto(lv, i + 1));
                    }
                    return Err(e);
                },
            }
        }
        proof {
            lemma_wins_ok_len(lv, cap as int);
            lemma_consumed_skip(lv, 3 * cap as int);
            lemma_field_val_width(lv, 0, cap as int);
        }
        Ok(result)
    }

    /// Perform one blocking read attempt and decode it.
    ///
    /// The result is exactly `read_result` of the hardware's response
    /// scripts; the levels and drives consumed and the delays performed are
    /// pinned down as well, so an aborted attempt provably samples nothing
    /// past its point of failure.
    pub fn read(&mut self) -> (r: Result<DHT11Reading, DHT11ReadingError>)
        ensures
            r == read_result(old(self).levels(), old(self).drives()),
            final(self).levels() == consumed(
                old(self).levels(),
                levels_used(old(self).levels(), old(self).drives()),
            ),
            final(self).drives() == consumed(old(self).drives(), start_used(old(self).drives())),
            final(self).waited() == old(self).waited() + read_delays(
                old(self).levels(),
                old(self).drives(),
            ),
    {
        let ghost lv = old(self).levels();
        let ghost dr = old(self).drives();
        let ghost w0 = old(self).waited();
        proof {
            lemma_consumed_few(lv);
            assert(head_level(lv) == sample_at(lv, 0));
            assert(head_level(rest_of(lv)) == sample_at(lv, 1));
        }

        // Signal that a frame is wanted: drive the line low, then release.
        match self.write_sensor_read_start() {
            Ok(_) => {},
            Err(e) => {
                proof {
                    assert(self.waited() =~= w0 + read_delays(lv, dr));
                }
                return Err(e);
            },
        }

        // Read the acknowledge echo: expected low, then high.
        let first = match self.read_signal_after(80) {
            Ok(s) => s,
            Err(e) => {
                proof {
                    assert(self.waited() =~= w0 + read_delays(lv, dr));
                }
                return Err(e);
            },
        };
        let second = match self.read_signal_after(80) {
            Ok(s) => s,
            Err(e) => {
                proof {
                    assert(self.waited() =~= w0 + read_delays(lv, dr));
                }
                return Err(e);
            },
        };
        match (first, second) {
            (Signal::Low, Signal::High) => {
                // acknowledged data pin activity
            },
            signals => {
                proof {
                    assert(self.waited() =~= w0 + read_delays(lv, dr));
                }
                return Err(DHT11ReadingError::SensorUnresponsive(signals));
            },
        }

        // Wait a little to catch the first bit window's timing right.
        self.2.wait_ms(5);
        let ghost s = lv.skip(2);
        let ghost pre = seq![18u32, 80u32, 80u32, 5u32];
        proof {
            assert(self.levels() =~= s);
            assert(self.waited() =~= w0 + pre);
        }

        // Sixteen bit windows each for temperature and humidity.
        let temperature = match self.read_sensor_bits(16) {
            Ok(v) => v,
            Err(e) => {
                proof {
                    lemma_wins_err_stable(s, 16, 40);
                    lemma_wins_used_bounds(s, 40);
                    lemma_consumed_add(lv, 2, wins_used_upto(s, 40));
                    assert(self.waited() =~= w0 + read_delays(lv, dr));
                }
                return Err(e);
            },
        };
        let ghost s1 = self.levels();
        proof {
            lemma_wins_ok_len(s, 16);
            lemma_consumed_skip(s, 48);
            assert(s1 == s.skip(48));
        }
        let humidity = match self.read_sensor_bits(16) {
            Ok(v) => v,
            Err(e) => {
                proof {
                    lemma_wins_shift(s, 16, 16);
                    lemma_wins_err_stable(s, 32, 40);
                    lemma_wins_used_bounds(s, 40);
                    lemma_wins_used_bounds(s1, 16);
                    lemma_consumed_add(lv, 2, wins_used_upto(s, 40));
                    lemma_consumed_add(s, 48, wins_used_upto(s1, 16));
                    assert(self.levels() == consumed(lv, levels_used(lv, dr)));
                    assert(self.waited() =~= w0 + (pre + (wins_delays_upto(s, 16)
                        + wins_delays_upto(s1, 16))));
                    assert(self.waited() =~= w0 + read_delays(lv, dr));
                }
                return Err(e);
            },
        };
        let ghost s2 = self.levels();
        proof {
            lemma_wins_shift(s, 16, 16);
            lemma_wins_ok_len(s1, 16);
            lemma_consumed_skip(s1, 48);
            assert(s2 == s1.skip(48));
            assert(s2 =~= s.skip(96));
            lemma_field_shift(s, 16, 0, 16);
            lemma_field_val_width(s1, 0, 16);
            assert(humidity == field_val(s, 16, 32));
        }

        // The last eight bit windows carry the additive checksum.
        let parity = match self.read_sensor_bits(8) {
            Ok(v) => v,
            Err(e) => {
                proof {
                    lemma_wins_shift(s, 32, 8);
                    lemma_wins_used_bounds(s, 40);
                    lemma_wins_used_bounds(s2, 8);
                    lemma_consumed_add(lv, 2, wins_used_upto(s, 40));
                    lemma_consumed_add(s, 96, wins_used_upto(s2, 8));
                    lemma_consumed_skip(s, 96);
                    assert(self.levels() == consumed(lv, levels_used(lv, dr)));
                    assert(self.waited() =~= w0 + (pre + ((wins_delays_upto(s, 16)
                        + wins_delays_upto(s1, 16)) + wins_delays_upto(s2, 8))));
                    assert(self.waited() =~= w0 + read_delays(lv, dr));
                }
                return Err(e);
            },
        };
        proof {
            lemma_wins_shift(s, 32, 8);
            assert(wins_res_upto(s, 40) is Ok);
            lemma_wins_ok_len(s2, 8);
            lemma_consumed_skip(s2, 24);
            lemma_field_shift(s, 32, 0, 8);
            lemma_field_val_width(s2, 0, 8);
            assert(parity == field_val(s, 32, 40));
            lemma_wins_used_bounds(s, 40);
            lemma_wins_used_bounds(s2, 8);
            lemma_consumed_add(lv, 2, wins_used_upto(s, 40));
            lemma_consumed_add(s, 96, wins_used_upto(s2, 8));
            lemma_consumed_skip(s, 96);
            assert(self.levels() == consumed(lv, levels_used(lv, dr)));
            assert(self.waited() =~= w0 + (pre + ((wins_delays_upto(s, 16) + wins_delays_upto(
                s1,
                16,
            )) + wins_delays_upto(s2, 8))));
            assert(self.waited() =~= w0 + read_delays(lv, dr));
            lemma_field_val_width(s, 0, 16);
            lemma_field_val_width(s, 16, 32);
            lemma_field_val_width(s, 32, 40);
        }

        let reading = DHT11Reading {
            temperature: temperature as u16,
            humidity: humidity as u16,
        };

        if temperature + humidity != parity {
            return Err(DHT11ReadingError::ParityFailure(reading));
        }

        Ok(reading)
    }
}

} // verus!
