//! The input channel that the machine reads from.

use vstd::prelude::*;

verus! {

/// What an input source hands to the machine when it is asked for one unit.
#[derive(Clone, Copy, Debug, PartialEq, Eq, Structural)]
pub enum InputEvent {
    /// One unit of input: a byte, or the code point of a character.
    Unit(u32),
    /// The input has ended.
    EndOfStream,
    /// The user aborted the run.
    Abort,
    /// The source could not be read.
    Failure,
}

/// A source of input, owned by whoever drives the machine.
///
/// Nothing is promised of what a source returns: the machine is verified for
/// every event that may come back.
pub trait InputSource {
    /// Blocks until one event is available and returns it.
    fn next_event(&mut self) -> InputEvent;
}

/// An input source that plays back a fixed list of units and then reports the
/// end of the stream, again and again.
pub struct ScriptedInput {
    units: Vec<u32>,
    consumed: usize,
}

impl ScriptedInput {
    /// The units that have not been handed out yet.
    pub closed spec fn remaining(&self) -> Seq<u32> {
        if self.consumed <= self.units@.len() {
            self.units@.skip(self.consumed as int)
        } else {
            Seq::empty()
        }
    }

    pub fn new(units: Vec<u32>) -> (source: ScriptedInput)
        ensures
            source.remaining() == units@,
    {
        ScriptedInput { units, consumed: 0 }
    }

    /// A source that plays back the bytes of `text`, one unit for each.
    pub fn from_bytes(text: &[u8]) -> (source: ScriptedInput)
        ensures
            source.remaining() == text@.map_values(|b: u8| b as u32),
    {
        let mut units: Vec<u32> = Vec::new();
        let mut i: usize = 0;
        while i < text.len()
            invariant
                i <= text@.len(),
                units@ == text@.take(i as int).map_values(|b: u8| b as u32),
            decreases text.len() - i,
        {
            units.push(text[i] as u32);
            i = i + 1;
            assert(units@ =~= text@.take(i as int).map_values(|b: u8| b as u32));
        }
        assert(text@.take(i as int) =~= text@);
        ScriptedInput { units, consumed: 0 }
    }
}

impl InputSource for ScriptedInput {
    fn next_event(&mut self) -> (event: InputEvent)
        ensures
            old(self).remaining().len() > 0 ==> event == InputEvent::Unit(old(self).remaining()[0])
                && final(self).remaining() == old(self).remaining().skip(1),
            old(self).remaining().len() == 0 ==> event == InputEvent::EndOfStream
                && final(self).remaining() == old(self).remaining(),
    {
        if self.consumed < self.units.len() {
            let unit = self.units[self.consumed];
            self.consumed = self.consumed + 1;
            assert(self.remaining() =~= old(self).remaining().skip(1));
            InputEvent::Unit(unit)
        } else {
            InputEvent::EndOfStream
        }
    }
}

} // verus!
