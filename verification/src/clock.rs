//! The time of day.

use vstd::prelude::*;

verus! {

/// A time, in seconds and nanoseconds since the Unix epoch.
#[derive(Clone, Copy, Debug, PartialEq, Eq, Structural)]
pub struct UnixTime {
    pub seconds: u64,
    pub nanos: u32,
}

impl UnixTime {
    /// Whether the nanoseconds are less than a second.
    pub open spec fn wf(self) -> bool {
        self.nanos < 1_000_000_000
    }
}

/// Calls `SystemTime::elapsed` on the Unix epoch: the seconds and nanoseconds since then, or
/// nothing where the clock stands before the epoch. Which time it is depends on the clock; the
/// nanoseconds are always less than a second.
#[verifier::external_body]
pub(crate) fn since_epoch() -> (r: Option<(u64, u32)>)
    ensures
        r matches Some(elapsed) ==> elapsed.1 < 1_000_000_000,
{
    match std::time::UNIX_EPOCH.elapsed() {
        Ok(elapsed) => Some((elapsed.as_secs(), elapsed.subsec_nanos())),
        Err(_) => None,
    }
}

/// The time that a reading of the clock stands for: a clock that stands before the epoch counts
/// as at the epoch.
pub fn time_of_reading(reading: Option<(u64, u32)>) -> (r: UnixTime)
    ensures
        r == match reading {
            Some(elapsed) => UnixTime { seconds: elapsed.0, nanos: elapsed.1 },
            None => UnixTime { seconds: 0, nanos: 0 },
        },
{
    match reading {
        Some((seconds, nanos)) => UnixTime { seconds, nanos },
        None => UnixTime { seconds: 0, nanos: 0 },
    }
}

/// Whether this is what a call of `SystemTime::elapsed` on the Unix epoch gave: the seconds and
/// nanoseconds since then, or nothing. Only a call shows it of a reading.
pub closed spec fn is_reading(reading: Option<(u64, u32)>) -> bool {
    call_ensures(since_epoch, (), reading)
}

/// The present time.
pub fn unix_now_seconds() -> (r: UnixTime)
    ensures
        r.wf(),
        is_reading(Some((r.seconds, r.nanos))) || (is_reading(None) && r.seconds == 0 && r.nanos
            == 0),
{
    assert(forall|reading: Option<(u64, u32)>| #[trigger]
        call_ensures(since_epoch, (), reading) ==> is_reading(reading) && (reading matches Some(
            elapsed,
        ) ==> reading == Some((elapsed.0, elapsed.1))));
    time_of_reading(since_epoch())
}

/// Law: the time that a reading of the clock stands for has the seconds and nanoseconds of the
/// reading, and is the epoch where the clock stands before it.
pub proof fn law_time_is_that_of_the_reading(reading: Option<(u64, u32)>, time: UnixTime)
    requires
        call_ensures(time_of_reading, (reading,), time),
    ensures
        reading matches Some(elapsed) ==> time.seconds == elapsed.0 && time.nanos == elapsed.1,
        reading is None ==> time.seconds == 0 && time.nanos == 0,
{
}

/// Law: a reading of the clock is what a call of `since_epoch` gave.
pub(crate) proof fn law_reading_is_of_a_call(reading: Option<(u64, u32)>)
    ensures
        is_reading(reading) <==> call_ensures(since_epoch, (), reading),
{
}

/// Law: the present time is what a call of `since_epoch` gave, and the epoch where that gave
/// nothing.
pub(crate) proof fn law_now_is_of_a_call(now: UnixTime)
    requires
        call_ensures(unix_now_seconds, (), now),
    ensures
        call_ensures(since_epoch, (), Some((now.seconds, now.nanos))) || (call_ensures(
            since_epoch,
            (),
            None::<(u64, u32)>,
        ) && now.seconds == 0 && now.nanos == 0),
{
    assert(is_reading(Some((now.seconds, now.nanos))) || is_reading(None));
}

/// Law: the present time is that of a reading of the clock.
pub proof fn law_now_is_a_reading(now: UnixTime)
    requires
        call_ensures(unix_now_seconds, (), now),
    ensures
        is_reading(Some((now.seconds, now.nanos))) || (is_reading(None) && now.seconds == 0
            && now.nanos == 0),
{
}

} // verus!
