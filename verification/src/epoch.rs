//! Instants, durations and ephemeris seconds, as plain integers.

use vstd::prelude::*;

verus! {

/// Nanoseconds in one Julian century of 36525 days.
pub const NANOSECONDS_PER_CENTURY: u64 = 3_155_760_000_000_000_000;

/// A signed span of time: `centuries` whole Julian centuries, rounded toward the past, and the
/// `nanoseconds` into the century that follows. The parts are those of `hifitime::Duration`.
#[derive(Clone, Copy, Debug, PartialEq, Eq, Structural)]
pub struct Duration {
    pub centuries: i16,
    pub nanoseconds: u64,
}

/// An instant, as the ephemeris time elapsed since J2000: the duration of a `hifitime::Epoch` in
/// the ET time scale.
#[derive(Clone, Copy, Debug, PartialEq, Eq, Structural)]
pub struct Epoch {
    pub since_j2000: Duration,
}

/// Seconds of ephemeris time past J2000 as a double precision number, held as its IEEE 754 bits.
#[derive(Clone, Copy, Debug)]
pub struct EtSeconds {
    pub bits: u64,
}

impl Duration {
    /// The length of this span in nanoseconds.
    pub open spec fn total(self) -> int {
        self.centuries * NANOSECONDS_PER_CENTURY + self.nanoseconds
    }

    /// The length of this span in nanoseconds.
    pub fn total_nanoseconds(&self) -> (ns: i128)
        ensures
            ns == self.total(),
    {
        assert(-0x8000 * NANOSECONDS_PER_CENTURY <= self.centuries * NANOSECONDS_PER_CENTURY
            <= 0x7fff * NANOSECONDS_PER_CENTURY);
        (self.centuries as i128) * (NANOSECONDS_PER_CENTURY as i128) + (self.nanoseconds as i128)
    }
}

impl Epoch {
    /// The order of two instants, as `hifitime` has it within one time scale: the centuries decide,
    /// then the nanoseconds.
    pub open spec fn precedes(self, other: Epoch) -> bool {
        let (a, b) = (self.since_j2000, other.since_j2000);
        a.centuries < b.centuries || (a.centuries == b.centuries && a.nanoseconds < b.nanoseconds)
    }

    /// Whether this instant is strictly before `other`.
    pub fn is_before(&self, other: &Epoch) -> (r: bool)
        ensures
            r == self.precedes(*other),
    {
        let a: Duration = self.since_j2000;
        let b: Duration = other.since_j2000;
        a.centuries < b.centuries || (a.centuries == b.centuries && a.nanoseconds < b.nanoseconds)
    }

    /// Nanoseconds of ephemeris time past J2000.
    pub open spec fn ns(self) -> int {
        self.since_j2000.total()
    }

    /// This instant in seconds, as [`to_et_seconds`](Epoch::to_et_seconds) returns it.
    pub open spec fn et_seconds(self) -> EtSeconds {
        EtSeconds {
            bits: et_seconds_bits(self.since_j2000.centuries, self.since_j2000.nanoseconds),
        }
    }

    /// Seconds of ephemeris time past J2000, rounded to double precision.
    pub fn to_et_seconds(&self) -> (s: EtSeconds)
        ensures
            s == self.et_seconds(),
    {
        EtSeconds {
            bits: et_duration_to_seconds(
                self.since_j2000.centuries,
                self.since_j2000.nanoseconds,
            ),
        }
    }
}

impl EtSeconds {
    /// The bits of the absolute value.
    pub open spec fn magnitude(self) -> int {
        if self.bits >= 0x8000_0000_0000_0000 {
            self.bits - 0x8000_0000_0000_0000
        } else {
            self.bits as int
        }
    }

    /// Whether this is not a number, which compares as unordered with everything.
    pub open spec fn is_nan(self) -> bool {
        self.magnitude() > 0x7ff0_0000_0000_0000
    }

    /// An integer ordered as the number is; both zeros map to zero.
    pub open spec fn rank(self) -> int {
        if self.bits >= 0x8000_0000_0000_0000 {
            -self.magnitude()
        } else {
            self.magnitude()
        }
    }

    /// `self <= other`, as IEEE 754 compares.
    pub open spec fn at_most(self, other: EtSeconds) -> bool {
        !self.is_nan() && !other.is_nan() && self.rank() <= other.rank()
    }

    /// `self == other`, as IEEE 754 compares.
    pub open spec fn same_as(self, other: EtSeconds) -> bool {
        !self.is_nan() && !other.is_nan() && self.rank() == other.rank()
    }

    /// The [`rank`](EtSeconds::rank) of a number, or nothing if it is not one.
    fn ordinal(&self) -> (r: Option<i64>)
        ensures
            self.is_nan() ==> r is None,
            !self.is_nan() ==> r == Some(self.rank() as i64) && r->0 == self.rank(),
    {
        let negative: bool = self.bits >= 0x8000_0000_0000_0000;
        let magnitude: u64 = if negative {
            self.bits - 0x8000_0000_0000_0000
        } else {
            self.bits
        };
        if magnitude > 0x7ff0_0000_0000_0000 {
            None
        } else if negative {
            Some(-(magnitude as i64))
        } else {
            Some(magnitude as i64)
        }
    }

    /// Whether `self <= other`.
    pub fn is_at_most(&self, other: &EtSeconds) -> (r: bool)
        ensures
            r == self.at_most(*other),
    {
        match (self.ordinal(), other.ordinal()) {
            (Some(a), Some(b)) => a <= b,
            _ => false,
        }
    }

    /// Whether `self == other`.
    pub fn equals(&self, other: &EtSeconds) -> (r: bool)
        ensures
            r == self.same_as(*other),
    {
        match (self.ordinal(), other.ordinal()) {
            (Some(a), Some(b)) => a == b,
            _ => false,
        }
    }
}

/// What `hifitime::Epoch::to_et_seconds` returns for the instant that lies this many centuries
/// and nanoseconds of ephemeris time past J2000, as the bits of the double.
pub uninterp spec fn et_seconds_bits(centuries: i16, nanoseconds: u64) -> u64;

/// Calls `hifitime::Epoch::to_et_seconds` on an epoch in the ET time scale. No time scale is
/// converted then: the result is computed from the two parts by sums and products of doubles.
#[verifier::external_body]
fn et_duration_to_seconds(centuries: i16, nanoseconds: u64) -> (bits: u64)
    ensures
        bits == et_seconds_bits(centuries, nanoseconds),
{
    let duration = hifitime::Duration::from_parts(centuries, nanoseconds);
    hifitime::Epoch::from_et_duration(duration).to_et_seconds().to_bits()
}

/// Reads the system clock with `hifitime::Epoch::now`: the UTC duration since the first of January
/// 1900 at midnight, or nothing if the clock cannot be read. Nothing is claimed of the reading.
#[verifier::external_body]
fn clock_reading() -> (reading: Option<Duration>) {
    match hifitime::Epoch::now() {
        Ok(now) => {
            let (centuries, nanoseconds) = now.duration.to_parts();
            Some(Duration { centuries, nanoseconds })
        },
        Err(_) => None,
    }
}

/// What `hifitime` prints for the instant that lies this many centuries and nanoseconds of UTC past
/// the first of January 1900 at midnight.
pub uninterp spec fn utc_text(centuries: i16, nanoseconds: u64) -> Seq<char>;

/// Prints an epoch in the UTC time scale, through the `Display` of `hifitime::Epoch`. No time scale
/// is converted: the date is computed from the two parts by integer arithmetic.
#[verifier::external_body]
fn utc_duration_to_text(centuries: i16, nanoseconds: u64) -> (text: String)
    ensures
        text@ == utc_text(centuries, nanoseconds),
{
    let duration = hifitime::Duration::from_parts(centuries, nanoseconds);
    hifitime::Epoch::from_utc_duration(duration).to_string()
}

/// Prints `hifitime::Epoch::default`, the origin of the TAI time scale: midnight on the first of
/// January 1900.
#[verifier::external_body]
fn tai_origin_text() -> (text: String)
    ensures
        text@ == "1900-01-01T00:00:00 TAI"@,
{
    hifitime::Epoch::default().to_string()
}

/// Whether a call that reads the clock returned this. Nothing but such a call can show it of any
/// reading, nor that the clock cannot be read.
pub closed spec fn is_clock_reading(reading: Option<Duration>) -> bool {
    call_ensures(clock_reading, (), reading)
}

/// Readings of the clock are what [`clock_reading`] returns, and nothing else.
proof fn law_readings_come_from_the_clock(reading: Option<Duration>)
    ensures
        is_clock_reading(reading) <==> call_ensures(clock_reading, (), reading),
{
}

/// The text of a reading of the clock, or of the origin of TAI if it could not be read.
pub open spec fn time_text(reading: Option<Duration>) -> Seq<char> {
    match reading {
        Some(utc) => utc_text(utc.centuries, utc.nanoseconds),
        None => "1900-01-01T00:00:00 TAI"@,
    }
}

/// The name under which a kernel is loaded: the `alias` if there is one, else the text of the
/// `reading` of the clock, a UTC duration, else that of the origin of TAI.
pub fn alias_or_time(alias: Option<String>, reading: Option<Duration>) -> (name: String)
    ensures
        name@ == (match alias {
            Some(a) => a@,
            None => time_text(reading),
        }),
{
    match alias {
        Some(a) => a,
        None => match reading {
            Some(utc) => utc_duration_to_text(utc.centuries, utc.nanoseconds),
            None => tai_origin_text(),
        },
    }
}

/// The name under which a kernel is loaded now: the `alias` if there is one, else the text of what
/// the clock reads in this call, or of the origin of TAI if it cannot be read.
pub fn alias_or_now(alias: Option<String>) -> (name: String)
    ensures
        match alias {
            Some(a) => name@ == a@,
            None => exists|reading: Option<Duration>|
                is_clock_reading(reading) && name@ == #[trigger] time_text(reading),
        },
{
    let reading: Option<Duration> = clock_reading();
    alias_or_time(alias, reading)
}

} // verus!
