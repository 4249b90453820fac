//! Points in time, in milliseconds since the start of the Unix epoch.

use core::cmp::Ordering;
use std::time::{Duration, SystemTime};
use vstd::prelude::*;
use vstd::std_specs::convert::FromSpec;

verus! {

/// A point in time of the system clock.
#[verifier::external_type_specification]
#[verifier::external_body]
pub struct ExSystemTime(SystemTime);

/// The nanoseconds from the start of the Unix epoch to a point in time; none for a point before it.
pub uninterp spec fn epoch_nanos(t: SystemTime) -> Option<nat>;

/// The nanoseconds in a span of time.
pub uninterp spec fn span_nanos(d: Duration) -> nat;

/// `SystemTime::duration_since` the epoch; the error that a time before the epoch gives becomes
/// `None`.
#[verifier::external_body]
fn since_epoch(t: SystemTime) -> (r: Option<Duration>)
    ensures
        epoch_nanos(t) == match r {
            Some(d) => Some(span_nanos(d)),
            None => None,
        },
{
    t.duration_since(SystemTime::UNIX_EPOCH).ok()
}

/// `Duration::as_millis`: the whole milliseconds in a span of time.
#[verifier::external_body]
fn span_millis(d: Duration) -> (r: u128)
    ensures
        r == span_nanos(d) / 1_000_000,
{
    d.as_millis()
}

/// The whole milliseconds from the start of the Unix epoch to a point in time; none for a point
/// before it.
pub open spec fn epoch_millis(t: SystemTime) -> Option<nat> {
    match epoch_nanos(t) {
        Some(n) => Some(n / 1_000_000),
        None => None,
    }
}

/// `SystemTime::now`. Which time it gives is up to the clock, so nothing is said of it.
pub assume_specification[ SystemTime::now ]() -> (r: SystemTime);

/// This timestamp is milliseconds from the start of the Unix epoch.
#[derive(Debug, Clone, Copy, Eq, Ord)]
pub struct TimeStamp(u64);

impl TimeStamp {
    /// The milliseconds since the epoch.
    pub closed spec fn millis(self) -> u64 {
        self.0
    }

    /// The timestamp of the current time: the one that the point in time which the clock gives
    /// converts into.
    pub fn now() -> (r: Self)
        ensures
            exists|t: SystemTime|
                {
                    &&& #[trigger] call_ensures(SystemTime::now, (), t)
                    &&& r == <TimeStamp as FromSpec<SystemTime>>::from_spec(t)
                },
    {
        let t = SystemTime::now();
        TimeStamp::from(t)
    }

    /// The milliseconds since the epoch.
    pub fn as_millis(&self) -> (r: u64)
        ensures
            r == self.millis(),
    {
        self.0
    }

    /// The timestamp for a number of milliseconds since the epoch.
    pub fn from_millis(n: u64) -> (r: Self)
        ensures
            r.millis() == n,
    {
        TimeStamp(n)
    }

    /// The timestamp for a number of milliseconds since the epoch; of a larger number only the
    /// low 64 bits are kept, and a time before the epoch counts as the epoch.
    pub fn from_epoch(since: Option<u128>) -> (r: Self)
        ensures
            r.millis() == match since {
                Some(m) => (m % 0x1_0000_0000_0000_0000) as u64,
                None => 0u64,
            },
    {
        match since {
            Some(m) => {
                assert(m as u64 == (m % 0x1_0000_0000_0000_0000) as u64) by (bit_vector);
                TimeStamp(#[verifier::truncate] (m as u64))
            },
            None => TimeStamp(0),
        }
    }
}

/// Timestamps are equal when their milliseconds are.
pub broadcast proof fn timestamp_is_its_millis(a: TimeStamp, b: TimeStamp)
    ensures
        #![trigger a.millis(), b.millis()]
        a.millis() == b.millis() <==> a == b,
{
}

impl From<SystemTime> for TimeStamp {
    fn from(t: SystemTime) -> (r: Self) {
        match since_epoch(t) {
            Some(d) => TimeStamp::from_epoch(Some(span_millis(d))),
            None => TimeStamp::from_epoch(None),
        }
    }
}

impl vstd::std_specs::convert::FromSpecImpl<SystemTime> for TimeStamp {
    open spec fn obeys_from_spec() -> bool {
        true
    }

    closed spec fn from_spec(t: SystemTime) -> Self {
        TimeStamp(stamp_millis(t))
    }
}

impl From<u64> for TimeStamp {
    fn from(n: u64) -> (r: Self) {
        TimeStamp(n)
    }
}

impl vstd::std_specs::convert::FromSpecImpl<u64> for TimeStamp {
    open spec fn obeys_from_spec() -> bool {
        true
    }

    closed spec fn from_spec(n: u64) -> Self {
        TimeStamp(n)
    }
}

/// A number of milliseconds stays the same when it becomes a timestamp.
pub proof fn millis_of_number(n: u64)
    ensures
        (<TimeStamp as FromSpec<u64>>::from_spec(n)).millis() == n,
{
}

/// A point in time becomes the timestamp of its milliseconds since the epoch, of which the low
/// 64 bits are kept; one before the epoch becomes the epoch.
pub proof fn millis_of_time(t: SystemTime)
    ensures
        (<TimeStamp as FromSpec<SystemTime>>::from_spec(t)).millis() == stamp_millis(t),
{
}

/// The order of two numbers of milliseconds.
pub open spec fn millis_order(a: u64, b: u64) -> Option<Ordering> {
    if a < b {
        Some(Ordering::Less)
    } else if a > b {
        Some(Ordering::Greater)
    } else {
        Some(Ordering::Equal)
    }
}

fn order_millis(a: u64, b: u64) -> (r: Option<Ordering>)
    ensures
        r == millis_order(a, b),
{
    if a < b {
        Some(Ordering::Less)
    } else if a > b {
        Some(Ordering::Greater)
    } else {
        Some(Ordering::Equal)
    }
}

/// The milliseconds of the timestamp of a point in time: the low 64 bits of those since the epoch,
/// and none for a point before it.
pub open spec fn stamp_millis(t: SystemTime) -> u64 {
    match epoch_millis(t) {
        Some(m) => (m % 0x1_0000_0000_0000_0000) as u64,
        None => 0u64,
    }
}

impl PartialEq<TimeStamp> for TimeStamp {
    fn eq(&self, other: &TimeStamp) -> (r: bool) {
        self.0 == other.0
    }
}

impl vstd::std_specs::cmp::PartialEqSpecImpl<TimeStamp> for TimeStamp {
    open spec fn obeys_eq_spec() -> bool {
        true
    }

    open spec fn eq_spec(&self, other: &TimeStamp) -> bool {
        self.millis() == other.millis()
    }
}

impl PartialOrd<TimeStamp> for TimeStamp {
    fn partial_cmp(&self, other: &TimeStamp) -> (r: Option<Ordering>) {
        order_millis(self.0, other.0)
    }
}

impl vstd::std_specs::cmp::PartialOrdSpecImpl<TimeStamp> for TimeStamp {
    open spec fn obeys_partial_cmp_spec() -> bool {
        true
    }

    open spec fn partial_cmp_spec(&self, other: &TimeStamp) -> Option<Ordering> {
        millis_order(self.millis(), other.millis())
    }
}

impl PartialEq<SystemTime> for TimeStamp {
    fn eq(&self, other: &SystemTime) -> (r: bool) {
        self.0 == TimeStamp::from(*other).0
    }
}

impl vstd::std_specs::cmp::PartialEqSpecImpl<SystemTime> for TimeStamp {
    open spec fn obeys_eq_spec() -> bool {
        true
    }

    open spec fn eq_spec(&self, other: &SystemTime) -> bool {
        self.millis() == stamp_millis(*other)
    }
}

impl PartialOrd<SystemTime> for TimeStamp {
    fn partial_cmp(&self, other: &SystemTime) -> (r: Option<Ordering>) {
        order_millis(self.0, TimeStamp::from(*other).0)
    }
}

impl vstd::std_specs::cmp::PartialOrdSpecImpl<SystemTime> for TimeStamp {
    open spec fn obeys_partial_cmp_spec() -> bool {
        true
    }

    open spec fn partial_cmp_spec(&self, other: &SystemTime) -> Option<Ordering> {
        millis_order(self.millis(), stamp_millis(*other))
    }
}

impl PartialEq<u64> for TimeStamp {
    fn eq(&self, other: &u64) -> (r: bool) {
        self.0 == *other
    }
}

impl vstd::std_specs::cmp::PartialEqSpecImpl<u64> for TimeStamp {
    open spec fn obeys_eq_spec() -> bool {
        true
    }

    open spec fn eq_spec(&self, other: &u64) -> bool {
        self.millis() == *other
    }
}

impl PartialOrd<u64> for TimeStamp {
    fn partial_cmp(&self, other: &u64) -> (r: Option<Ordering>) {
        order_millis(self.0, *other)
    }
}

impl vstd::std_specs::cmp::PartialOrdSpecImpl<u64> for TimeStamp {
    open spec fn obeys_partial_cmp_spec() -> bool {
        true
    }

    open spec fn partial_cmp_spec(&self, other: &u64) -> Option<Ordering> {
        millis_order(self.millis(), *other)
    }
}

/// Whether a point in time is not before another; points before the epoch are told from those
/// after it only.
pub open spec fn not_before(t: SystemTime, earlier: SystemTime) -> bool {
    match (epoch_nanos(earlier), epoch_nanos(t)) {
        (Some(a), Some(b)) => a <= b,
        (Some(_), None) => false,
        (None, _) => true,
    }
}

/// A later point in time has no smaller timestamp, as long as its milliseconds fit in one, and one
/// that is later by a millisecond or more has a greater one.
pub proof fn timestamps_follow_time(earlier: SystemTime, t: SystemTime)
    requires
        not_before(t, earlier),
        epoch_millis(t) is Some ==> epoch_millis(t)->0 <= u64::MAX,
    ensures
        stamp_millis(earlier) <= stamp_millis(t),
        epoch_nanos(earlier) is Some && epoch_nanos(earlier)->0 + 1_000_000 <= epoch_nanos(t)->0
            ==> stamp_millis(earlier) < stamp_millis(t),
{
}

/// A point in time before the epoch has the timestamp of its start.
pub proof fn time_before_epoch_is_zero(t: SystemTime)
    requires
        epoch_nanos(t) is None,
    ensures
        stamp_millis(t) == 0,
{
}

/// The timestamp of a point in time is the last whole millisecond that is not after it, as long as
/// that fits.
pub proof fn timestamp_is_the_whole_millisecond(t: SystemTime)
    requires
        epoch_nanos(t) is Some,
        epoch_nanos(t)->0 / 1_000_000 <= u64::MAX,
    ensures
        stamp_millis(t) * 1_000_000 <= epoch_nanos(t)->0 < (stamp_millis(t) + 1) * 1_000_000,
        (<TimeStamp as FromSpec<SystemTime>>::from_spec(t)).millis() == stamp_millis(t),
{
}

/// Numbers of milliseconds are ordered as numbers.
pub proof fn timestamps_are_ordered_as_numbers(a: u64, b: u64)
    ensures
        a < b <==> millis_order(a, b) == Some(Ordering::Less),
        a > b <==> millis_order(a, b) == Some(Ordering::Greater),
        a == b <==> millis_order(a, b) == Some(Ordering::Equal),
{
}

/// A number of milliseconds becomes a timestamp and is read back as it was; a number since the
/// epoch that fits is kept, and a time before it is the epoch.
pub proof fn milliseconds_are_read_back(n: u64, t: TimeStamp, r: u64, m: Option<u128>, e: TimeStamp)
    requires
        call_ensures(TimeStamp::from_millis, (n,), t),
        call_ensures(TimeStamp::as_millis, (&t,), r),
        call_ensures(TimeStamp::from_epoch, (m,), e),
    ensures
        r == n,
        m is Some && m->0 <= u64::MAX ==> e.millis() == m->0,
        m is None ==> e.millis() == 0,
{
}

} // verus!
