//! Points in time: UTC seconds and nanoseconds since the Unix epoch.

use chrono::DateTime;
use chrono::Utc;
use vstd::prelude::*;

verus! {

/// A point in time, as seconds since 1970-01-01 00:00:00 UTC and the
/// nanoseconds that follow.
#[derive(Debug, Clone, Copy, PartialEq, Eq, PartialOrd, Ord, Hash, Structural)]
pub struct Timestamp {
    pub secs: i64,
    pub nanos: u32,
}

/// The start of the year -262143.
pub const MIN_SECS: i64 = -8_334_601_228_800;

/// The last second of the year 262142.
pub const MAX_SECS: i64 = 8_210_266_876_799;

/// The Unix epoch.
pub open spec fn epoch() -> Timestamp {
    Timestamp { secs: 0, nanos: 0 }
}

/// Whether the calendar can represent the instant: the year lies between
/// -262143 and 262142, and more than a second of nanoseconds occurs only in a
/// leap second, at the end of a minute.
pub open spec fn representable(secs: int, nanos: int) -> bool {
    &&& MIN_SECS <= secs <= MAX_SECS
    &&& 0 <= nanos < 2_000_000_000
    &&& nanos >= 1_000_000_000 ==> secs % 60 == 59
}

/// The instant of the given seconds and nanoseconds; the epoch where the
/// calendar cannot represent it.
pub open spec fn instant(secs: i64, nanos: u32) -> Timestamp {
    if representable(secs as int, nanos as int) {
        Timestamp { secs, nanos }
    } else {
        epoch()
    }
}

impl Default for Timestamp {
    fn default() -> (r: Self)
        ensures
            r == epoch(),
    {
        Timestamp { secs: 0, nanos: 0 }
    }
}

/// `chrono::DateTime::<Utc>::from_timestamp`: the instant, or `None` where the
/// year is out of the calendar's range or the nanoseconds are not those of an
/// ordinary or leap second. The instant is read back as its seconds and
/// nanoseconds, which are those it was made of.
#[verifier::external_body]
fn calendar_instant(secs: i64, nanos: u32) -> (r: Option<Timestamp>)
    ensures
        r == if representable(secs as int, nanos as int) {
            Some(Timestamp { secs, nanos })
        } else {
            None
        },
{
    DateTime::<Utc>::from_timestamp(secs, nanos).map(
        |t| Timestamp { secs: t.timestamp(), nanos: t.timestamp_subsec_nanos() },
    )
}

/// `chrono::Utc::now`: the current time of the system clock. Which time that is
/// is left unsaid; it is one that the calendar represents, without a leap
/// second. The call panics where the clock stands before 1970, or past the last
/// year of the calendar.
#[verifier::external_body]
pub(crate) fn utc_now() -> (r: Timestamp)
    ensures
        representable(r.secs as int, r.nanos as int),
        r.nanos < 1_000_000_000,
{
    let now = Utc::now();
    Timestamp { secs: now.timestamp(), nanos: now.timestamp_subsec_nanos() }
}

/// The instant of the given seconds and nanoseconds since the epoch; the epoch
/// itself where the calendar cannot represent it.
pub fn timestamp_or_epoch(secs: i64, nanos: u32) -> (r: Timestamp)
    ensures
        r == instant(secs, nanos),
{
    match calendar_instant(secs, nanos) {
        Some(t) => t,
        None => Timestamp::default(),
    }
}

/// An instant is made of exactly the given seconds and nanoseconds, for every year
/// from -262143 to 262142; a second more of nanoseconds than usual is taken at the
/// end of a minute only. Everything else gives the epoch.
pub proof fn law_instants_keep_their_time(secs: i64, nanos: u32)
    ensures
        -8_334_601_228_800 <= secs <= 8_210_266_876_799 && nanos < 1_000_000_000 ==> instant(
            secs,
            nanos,
        ).secs == secs && instant(secs, nanos).nanos == nanos,
        -8_334_601_228_800 <= secs <= 8_210_266_876_799 && secs % 60 == 59 && nanos < 2_000_000_000
            ==> instant(secs, nanos).secs == secs && instant(secs, nanos).nanos == nanos,
        secs < -8_334_601_228_800 || secs > 8_210_266_876_799 || nanos >= 2_000_000_000 || (nanos
            >= 1_000_000_000 && secs % 60 != 59) ==> instant(secs, nanos).secs == 0 && instant(
            secs,
            nanos,
        ).nanos == 0,
        epoch().secs == 0 && epoch().nanos == 0,
{
}

} // verus!
