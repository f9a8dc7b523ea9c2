//! The processor: which unit runs.
use vstd::prelude::*;

verus! {

/// The state of the one processor: idle, or running a unit.
pub struct Processor {
    /// The unit that runs, if any.
    pub current: Option<usize>,
}

impl Processor {
    /// An idle processor.
    pub fn new() -> (processor: Processor)
        ensures
            processor.current.is_none(),
    {
        Processor { current: None }
    }

    /// Takes the running unit off the processor, which is idle afterwards.
    pub fn take_current(&mut self) -> (unit: Option<usize>)
        ensures
            unit == old(self).current,
            final(self).current.is_none(),
    {
        self.current.take()
    }

    /// The running unit.
    pub fn current(&self) -> (unit: Option<usize>)
        ensures
            unit == self.current,
    {
        self.current
    }
}

} // verus!
