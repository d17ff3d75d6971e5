//! The clock of a node: logical time that never runs backwards.

use vstd::prelude::*;
use crate::error::Error;

verus! {

/// The clock of a node. It is fed with readings of some source of time and
/// hands out timestamps that never decrease.
#[derive(Clone, Copy, Debug)]
pub struct Clock {
    last: u64,
}

impl Clock {
    /// The latest timestamp that the clock handed out.
    pub closed spec fn last(&self) -> u64 {
        self.last
    }

    /// A clock that has handed out nothing yet.
    pub fn new() -> (clock: Self)
        ensures
            clock.last() == 0,
    {
        Clock { last: 0 }
    }

    /// The latest timestamp that the clock handed out.
    pub fn latest(&self) -> (ts: u64)
        ensures
            ts == self.last(),
    {
        self.last
    }

    /// Takes a reading of the source of time and hands out the timestamp for
    /// it: the reading, or the latest timestamp where the reading lies
    /// before it. A reading that lies more than `window` before the latest
    /// timestamp is refused: the source cannot be trusted.
    pub fn observe(&mut self, reading: u64, window: u64) -> (now: Result<u64, Error>)
        ensures
            match now {
                Ok(ts) => {
                    &&& reading + window >= old(self).last()
                    &&& ts == if reading >= old(self).last() {
                        reading
                    } else {
                        old(self).last()
                    }
                    &&& final(self).last() == ts
                },
                Err(e) => {
                    &&& e == Error::FatalStorage
                    &&& reading + window < old(self).last()
                    &&& final(self).last() == old(self).last()
                },
            },
    {
        if reading >= self.last {
            self.last = reading;
            Ok(reading)
        } else if self.last - reading > window {
            Err(Error::FatalStorage)
        } else {
            Ok(self.last)
        }
    }
}

} // verus!
