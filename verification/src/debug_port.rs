//! A port to which a guest writes codes as it boots, so that its boot can be timed.

use vstd::prelude::*;

use crate::time::{Elapsed, TimestampUs};

verus! {

/// What is reported of a code that the guest wrote: the code, and how long after the start.
#[derive(Clone, Copy, Debug, PartialEq, Eq, Structural)]
pub struct DebugRecord {
    pub code: u8,
    pub real: u64,
    pub cpu: u64,
}

impl DebugRecord {
    /// What is reported of `data` that a guest wrote at the time `now`, when it was started at `start`.
    pub open spec fn of(data: Seq<u8>, start: TimestampUs, now: TimestampUs) -> DebugRecord {
        DebugRecord {
            code: data[0],
            real: (now.time_us - start.time_us) as u64,
            cpu: (now.cputime_us - start.cputime_us) as u64,
        }
    }
}

/// The port.
#[derive(Debug)]
pub struct DebugPort {
    timestamp: TimestampUs,
}

impl DebugPort {
    /// When the guest was started.
    pub closed spec fn start(self) -> TimestampUs {
        self.timestamp
    }

    /// The port of a guest that was started at `timestamp`.
    pub fn new(timestamp: TimestampUs) -> (port: DebugPort)
        ensures
            port.start() == timestamp,
    {
        DebugPort { timestamp }
    }

    /// Takes what the guest wrote at the time `now`; its first byte is the code.
    pub fn write(&self, data: &[u8], now: TimestampUs) -> (record: DebugRecord)
        requires
            data@.len() > 0,
            now.not_before(self.start()),
        ensures
            record == DebugRecord::of(data@, self.start(), now),
    {
        let elapsed: Elapsed = now.since(&self.timestamp);
        DebugRecord { code: data[0], real: elapsed.real, cpu: elapsed.cpu }
    }
}

/// What is reported are the first byte that the guest wrote and the times that, from the start on,
/// lead to the time at which it wrote, on the clock and in the process.
pub proof fn reported_times_lead_from_the_start_to_now(
    data: Seq<u8>,
    start: TimestampUs,
    now: TimestampUs,
)
    requires
        data.len() > 0,
        start.time_us <= now.time_us,
        start.cputime_us <= now.cputime_us,
    ensures
        now.not_before(start),
        ({
            let record = DebugRecord::of(data, start, now);
            &&& record.code == data[0]
            &&& start.time_us + record.real == now.time_us
            &&& start.cputime_us + record.cpu == now.cputime_us
        }),
{
}

} // verus!
