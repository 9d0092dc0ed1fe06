use vstd::prelude::*;

verus! {

/// Writes the items database to disk when its timer rings.
#[derive(Debug)]
pub struct FlushDataTask {
    /// Unix time (seconds) at which the task is due.
    pub timer: u64,
}

impl FlushDataTask {
    /// The time at which the task is due.
    pub fn timer(&self) -> (r: u64)
        ensures
            r == self.timer,
    {
        self.timer
    }
}

} // verus!
