use crate::signal::Signal;
use vstd::prelude::*;

verus! {

/// The next outcome a script hands out; an exhausted script behaves as a
/// hardware fault (`None` level, failed drive).
pub open spec fn head_level(s: Seq<Option<Signal>>) -> Option<Signal> {
    if s.len() == 0 {
        None
    } else {
        s[0]
    }
}

/// Whether the next drive of the output line succeeds.
pub open spec fn head_drive(s: Seq<bool>) -> bool {
    s.len() > 0 && s[0]
}

/// A script with its first outcome handed out; the empty script stays empty.
pub open spec fn rest_of<T>(s: Seq<T>) -> Seq<T> {
    if s.len() == 0 {
        s
    } else {
        s.skip(1)
    }
}

/// Capability to read the instantaneous logic level of the sensor line.
///
/// `levels()` models the outcomes of the future reads, oldest first: a
/// `Some` is the level the line shows at that read, a `None` is a read the
/// hardware itself fails to deliver.
pub trait InputLine: Sized {
    spec fn levels(&self) -> Seq<Option<Signal>>;

    /// Read the line once, with no delay.
    fn sample(&mut self) -> (r: Option<Signal>)
        ensures
            r == head_level(old(self).levels()),
            final(self).levels() == rest_of(old(self).levels()),
    ;
}

/// Capability to drive the sensor line high or low.
///
/// `drives()` models whether each future drive, high or low alike, takes
/// effect or fails at the hardware.
pub trait OutputLine: Sized {
    spec fn drives(&self) -> Seq<bool>;

    /// Drive the line low.
    fn set_low(&mut self) -> (ok: bool)
        ensures
            ok == head_drive(old(self).drives()),
            final(self).drives() == rest_of(old(self).drives()),
    ;

    /// Drive the line high.
    fn set_high(&mut self) -> (ok: bool)
        ensures
            ok == head_drive(old(self).drives()),
            final(self).drives() == rest_of(old(self).drives()),
    ;
}

/// Capability to block for a whole number of milliseconds.
///
/// `waited()` is the log of every wait performed so far, in order; the
/// protocol's contract pins this log down exactly, so the timing of each
/// step is part of what is verified.
pub trait Delay: Sized {
    spec fn waited(&self) -> Seq<u32>;

    /// Block for `duration_ms` milliseconds.
    fn wait_ms(&mut self, duration_ms: u32)
        ensures
            final(self).waited() == old(self).waited().push(duration_ms),
    ;
}

} // verus!
