//! The wall clock, in nanoseconds since the Unix epoch.

use std::time::SystemTime;

use vstd::prelude::*;

verus! {

/// `SystemTime::elapsed` of the Unix epoch, in nanoseconds; none where the clock stands before it.
///
/// Nothing is claimed of what the clock shows.
#[verifier::external_body]
fn epoch_elapsed() -> (nanos: Option<u128>) {
    SystemTime::UNIX_EPOCH.elapsed().ok().map(|elapsed| elapsed.as_nanos())
}

/// The timestamp for the time since the epoch: its low sixty-four bits, and zero before the epoch.
pub fn timestamp(nanos: Option<u128>) -> (time_unix_nano: u64)
    ensures
        time_unix_nano == (match nanos {
            Some(n) => n as int % 0x1_0000_0000_0000_0000,
            None => 0,
        }),
{
    match nanos {
        Some(n) => (n % 0x1_0000_0000_0000_0000) as u64,
        None => 0,
    }
}

/// Whether a reading of the clock can give `nanos` since the epoch.
pub closed spec fn clock_shows(nanos: Option<u128>) -> bool {
    call_ensures(epoch_elapsed, (), nanos)
}

/// Whether a time can be the current one: it is the timestamp of what the clock can show.
pub open spec fn can_be_now(time_unix_nano: u64) -> bool {
    exists|nanos: Option<u128>| #[trigger]
        clock_shows(nanos) && time_unix_nano == (match nanos {
            Some(n) => n as int % 0x1_0000_0000_0000_0000,
            None => 0,
        })
}

/// The current time. What it is depends on the clock alone.
pub fn now_nanos() -> (time_unix_nano: u64)
    ensures
        can_be_now(time_unix_nano),
{
    let nanos = epoch_elapsed();
    assert(clock_shows(nanos));
    timestamp(nanos)
}

/// The current time was read off the clock: the nanoseconds that it showed, as long as they fit,
/// and zero only where it showed a time before the epoch or a whole round of the counter.
pub proof fn law_now_is_read(time_unix_nano: u64)
    requires
        can_be_now(time_unix_nano),
    ensures
        exists|nanos: Option<u128>| #[trigger]
            clock_shows(nanos) && (nanos is None ==> time_unix_nano == 0) && (nanos matches Some(n)
                ==> (n - time_unix_nano) % 0x1_0000_0000_0000_0000 == 0 && (n <= u64::MAX
                ==> time_unix_nano == n)),
{
    let nanos = choose|nanos: Option<u128>| #[trigger]
        clock_shows(nanos) && time_unix_nano == (match nanos {
            Some(n) => n as int % 0x1_0000_0000_0000_0000,
            None => 0,
        });
    assert(clock_shows(nanos));
}

/// What the clock shows is what a reading of it gives, and nothing else.
proof fn law_clock_is_read(nanos: Option<u128>)
    ensures
        clock_shows(nanos) <==> call_ensures(epoch_elapsed, (), nanos),
{
}

} // verus!
