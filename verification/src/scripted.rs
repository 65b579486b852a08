use crate::hal::{head_drive, head_level, rest_of, Delay, InputLine, OutputLine};
use crate::signal::Signal;
use vstd::prelude::*;

verus! {

/// An input line that replays a pre-programmed sequence of levels: the
/// deterministic stand-in for real hardware that the protocol's scenarios
/// run against.
pub struct ScriptedInput {
    script: Vec<Option<Signal>>,
    cursor: usize,
}

impl ScriptedInput {
    pub fn new(script: Vec<Option<Signal>>) -> (r: Self)
        ensures
            r.levels() == script@,
    {
        ScriptedInput { script, cursor: 0 }
    }

    /// How many scripted levels have not been handed out yet.
    pub fn remaining(&self) -> (n: usize)
        ensures
            n == self.levels().len(),
    {
        if self.cursor < self.script.len() {
            self.script.len() - self.cursor
        } else {
            0
        }
    }
}

impl InputLine for ScriptedInput {
    closed spec fn levels(&self) -> Seq<Option<Signal>> {
        if self.cursor as int <= self.script@.len() {
            self.script@.skip(self.cursor as int)
        } else {
            Seq::empty()
        }
    }

    fn sample(&mut self) -> (r: Option<Signal>) {
        if self.cursor < self.script.len() {
            let r = self.script[self.cursor];
            self.cursor = self.cursor + 1;
            proof {
                assert(old(self).levels()[0] == r);
                assert(self.levels() =~= rest_of(old(self).levels()));
            }
            r
        } else {
            proof {
                assert(self.levels() =~= rest_of(old(self).levels()));
            }
            None
        }
    }
}

/// An output line that takes its drive outcomes from a pre-programmed
/// sequence, so failures of the hardware itself can be staged.
pub struct ScriptedOutput {
    script: Vec<bool>,
    cursor: usize,
}

impl ScriptedOutput {
    pub fn new(script: Vec<bool>) -> (r: Self)
        ensures
            r.drives() == script@,
    {
        ScriptedOutput { script, cursor: 0 }
    }

    /// How many scripted drive outcomes have not been handed out yet.
    pub fn remaining(&self) -> (n: usize)
        ensures
            n == self.drives().len(),
    {
        if self.cursor < self.script.len() {
            self.script.len() - self.cursor
        } else {
            0
        }
    }

    fn advance(&mut self) -> (ok: bool)
        ensures
            ok == head_drive(old(self).drives()),
            final(self).drives() == rest_of(old(self).drives()),
    {
        if self.cursor < self.script.len() {
            let ok = self.script[self.cursor];
            self.cursor = self.cursor + 1;
            proof {
                assert(self.drives() =~= rest_of(old(self).drives()));
            }
            ok
        } else {
            proof {
                assert(self.drives() =~= rest_of(old(self).drives()));
            }
            false
        }
    }
}

impl OutputLine for ScriptedOutput {
    closed spec fn drives(&self) -> Seq<bool> {
        if self.cursor as int <= self.script@.len() {
            self.script@.skip(self.cursor as int)
        } else {
            Seq::empty()
        }
    }

    fn set_low(&mut self) -> (ok: bool) {
        self.advance()
    }

    fn set_high(&mut self) -> (ok: bool) {
        self.advance()
    }
}

/// A delay source that waits for no wall-clock time and only logs what it
/// was asked to wait, so a run's timing can be inspected afterwards.
pub struct ScriptedDelay {
    log: Vec<u32>,
}

impl ScriptedDelay {
    pub fn new() -> (r: Self)
        ensures
            r.waited() == Seq::<u32>::empty(),
    {
        ScriptedDelay { log: Vec::new() }
    }

    /// The log of every wait performed so far, oldest first.
    pub fn history(&self) -> (h: &Vec<u32>)
        ensures
            h@ == self.waited(),
    {
        &self.log
    }
}

impl Delay for ScriptedDelay {
    closed spec fn waited(&self) -> Seq<u32> {
        self.log@
    }

    fn wait_ms(&mut self, duration_ms: u32) {
        self.log.push(duration_ms);
    }
}

} // verus!
