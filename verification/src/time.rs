//! Instants in UTC, modelled as seconds since the Unix epoch and a
//! sub-second count of nanoseconds, over the range that `chrono`'s
//! `DateTime<Utc>` covers. The calendar date of a day is `chrono`'s to tell.
use chrono::Datelike;
use vstd::prelude::*;

verus! {

pub const SECONDS_PER_MINUTE: i64 = 60;

pub const SECONDS_PER_DAY: i64 = 86400;

pub const NANOS_PER_SECOND: u32 = 1_000_000_000;

/// The day number (days since 1970-01-01) of January 1 of year -262143, `chrono`'s first date.
pub const MIN_EPOCH_DAY: i64 = -96465293;

/// The day number of December 31 of year 262142, `chrono`'s last date.
pub const MAX_EPOCH_DAY: i64 = 95026236;

/// The first second of `MIN_EPOCH_DAY`.
pub const MIN_SECONDS: i64 = -8334601315200;

/// The last second of `MAX_EPOCH_DAY`.
pub const MAX_SECONDS: i64 = 8210266876799;

pub const MIN_YEAR: i32 = -262143;

pub const MAX_YEAR: i32 = 262142;

/// The (year, month, day) of the proleptic Gregorian calendar that falls
/// `epoch_day` days after 1970-01-01, as `chrono::NaiveDate::from_epoch_days` computes it.
pub uninterp spec fn civil_date_of(epoch_day: int) -> (int, int, int);

/// `chrono::NaiveDate::from_epoch_days`, read back as year, month and day.
/// Claims: for a day in `chrono`'s range the date exists, it is
/// `civil_date_of(epoch_day)`, its month lies in 1..=12, its day in 1..=31
/// and its year in `MIN_YEAR..=MAX_YEAR`. Which date a day number names is left
/// to the name.
#[verifier::external_body]
fn civil_date(epoch_day: i32) -> (r: Option<(i32, u32, u32)>)
    requires
        MIN_EPOCH_DAY <= epoch_day <= MAX_EPOCH_DAY,
    ensures
        r is Some,
        r matches Some(date) ==> (date.0 as int, date.1 as int, date.2 as int) == civil_date_of(
            epoch_day as int,
        ),
        r matches Some(date) ==> 1 <= date.1 <= 12 && 1 <= date.2 <= 31 && MIN_YEAR <= date.0
            <= MAX_YEAR,
{
    chrono::NaiveDate::from_epoch_days(epoch_day).map(|date| (date.year(), date.month(), date.day()))
}

/// A timestamp that `DateTime<Utc>` can hold, leap seconds aside.
pub open spec fn valid_timestamp(seconds: int, nanos: int) -> bool {
    MIN_SECONDS <= seconds <= MAX_SECONDS && 0 <= nanos < NANOS_PER_SECOND
}

/// An instant in UTC.
#[derive(Clone, Copy, Debug, PartialEq, Eq, Structural)]
pub struct UtcTime {
    seconds: i64,
    nanos: u32,
}

/// The calendar and clock fields of an instant.
#[derive(Clone, Copy, Debug, PartialEq, Eq, Structural)]
pub struct CivilFields {
    pub year: i32,
    pub month: u32,
    pub day: u32,
    pub hour: u32,
    pub minute: u32,
    pub second: u32,
    pub nanosecond: u32,
}

impl UtcTime {
    #[verifier::type_invariant]
    spec fn valid(self) -> bool {
        valid_timestamp(self.seconds as int, self.nanos as int)
    }

    /// Whole seconds since 1970-01-01T00:00:00Z.
    pub closed spec fn secs(self) -> int {
        self.seconds as int
    }

    /// Nanoseconds past the whole second.
    pub closed spec fn subsec(self) -> int {
        self.nanos as int
    }

    /// The instant `seconds` seconds and `nanos` nanoseconds after the epoch, if
    /// `chrono` can represent it.
    pub fn from_timestamp(seconds: i64, nanos: u32) -> (r: Option<UtcTime>)
        ensures
            r is Some <==> valid_timestamp(seconds as int, nanos as int),
            r matches Some(t) ==> t.secs() == seconds && t.subsec() == nanos,
    {
        if MIN_SECONDS <= seconds && seconds <= MAX_SECONDS && nanos < NANOS_PER_SECOND {
            Some(UtcTime { seconds, nanos })
        } else {
            None
        }
    }

    /// 1970-01-01T00:00:00Z.
    pub fn epoch() -> (r: UtcTime)
        ensures
            r.secs() == 0,
            r.subsec() == 0,
    {
        UtcTime { seconds: 0, nanos: 0 }
    }

    pub fn seconds(&self) -> (r: i64)
        ensures
            r == self.secs(),
            valid_timestamp(self.secs(), self.subsec()),
    {
        proof {
            use_type_invariant(self);
        }
        self.seconds
    }

    pub fn subsec_nanos(&self) -> (r: u32)
        ensures
            r == self.subsec(),
            valid_timestamp(self.secs(), self.subsec()),
    {
        proof {
            use_type_invariant(self);
        }
        self.nanos
    }

    /// Milliseconds since the epoch, as `DateTime::timestamp_millis` counts them.
    pub fn timestamp_millis(&self) -> (r: i64)
        ensures
            r == millis_of(*self),
    {
        proof {
            use_type_invariant(self);
        }
        self.seconds * 1000 + (self.nanos / 1_000_000) as i64
    }

    /// Whether `self` is at or before `other`.
    pub fn not_after(&self, other: &UtcTime) -> (r: bool)
        ensures
            r == not_after(*self, *other),
    {
        self.seconds < other.seconds || (self.seconds == other.seconds && self.nanos
            <= other.nanos)
    }

    /// The calendar and clock fields of `self` in UTC.
    pub fn civil_fields(&self) -> (r: CivilFields)
        ensures
            r.year == year_of(*self),
            r.month == month_of(*self),
            r.day == day_of(*self),
            r.hour == hour_of(*self),
            r.minute == minute_of(*self),
            r.second == second_of(*self),
            r.nanosecond == self.subsec(),
            1 <= r.month <= 12,
            1 <= r.day <= 31,
            MIN_YEAR <= r.year <= MAX_YEAR,
            r.hour < 24,
            r.minute < 60,
            r.second < 60,
    {
        proof {
            use_type_invariant(self);
        }
        let offset: i64 = self.seconds - MIN_SECONDS;
        let day: i64 = offset / SECONDS_PER_DAY + MIN_EPOCH_DAY;
        let second_of_day: i64 = offset % SECONDS_PER_DAY;
        proof {
            lemma_day_split(self.seconds as int);
        }
        let date = civil_date(day as i32);
        match date {
            Some((year, month, day_of_month)) => CivilFields {
                year,
                month,
                day: day_of_month,
                hour: (second_of_day / 3600) as u32,
                minute: ((second_of_day % 3600) / 60) as u32,
                second: (second_of_day % 60) as u32,
                nanosecond: self.nanos,
            },
            None => {
                proof {
                    assert(false);
                }
                CivilFields {
                    year: 0,
                    month: 1,
                    day: 1,
                    hour: 0,
                    minute: 0,
                    second: 0,
                    nanosecond: 0,
                }
            },
        }
    }

    /// `self` with its second and nanosecond set to zero.
    pub fn truncate_to_minute(&self) -> (r: UtcTime)
        ensures
            r.secs() == self.secs() - self.secs() % 60,
            r.subsec() == 0,
    {
        proof {
            use_type_invariant(self);
        }
        let offset: i64 = self.seconds - MIN_SECONDS;
        let seconds = self.seconds - offset % SECONDS_PER_MINUTE;
        proof {
            assert(MIN_SECONDS % 60 == 0);
            assert((self.seconds - MIN_SECONDS) % 60 == self.seconds % 60) by {
                vstd::arithmetic::div_mod::lemma_mod_sub_multiples_vanish(
                    self.seconds as int,
                    60,
                );
                assert(MIN_SECONDS == -138910021920 * 60);
                vstd::arithmetic::div_mod::lemma_mod_multiples_vanish(
                    -138910021920,
                    self.seconds as int,
                    60,
                );
            }
        }
        UtcTime { seconds, nanos: 0 }
    }

    /// `self` moved by `minutes` whole minutes, if the result stays in range.
    pub fn checked_add_minutes(&self, minutes: i64) -> (r: Option<UtcTime>)
        ensures
            r is Some <==> valid_timestamp(self.secs() + 60 * minutes, self.subsec()),
            r matches Some(t) ==> t.secs() == self.secs() + 60 * minutes && t.subsec()
                == self.subsec(),
    {
        proof {
            use_type_invariant(self);
        }
        if minutes > 300_000_000_000 || minutes < -300_000_000_000 {
            return None;
        }
        let seconds = self.seconds + 60 * minutes;
        if MIN_SECONDS <= seconds && seconds <= MAX_SECONDS {
            Some(UtcTime { seconds, nanos: self.nanos })
        } else {
            None
        }
    }
}

/// `q` and `r` are the floor quotient and remainder of `x` by `d`.
proof fn lemma_div_mod_of(x: int, d: int, q: int, r: int)
    requires
        d > 0,
        0 <= r < d,
        x == q * d + r,
    ensures
        x / d == q,
        x % d == r,
{
    vstd::arithmetic::div_mod::lemma_fundamental_div_mod_converse_div(x, d, q, r);
    vstd::arithmetic::div_mod::lemma_fundamental_div_mod_converse_mod(x, d, q, r);
}

proof fn lemma_day_split(s: int)
    requires
        MIN_SECONDS <= s <= MAX_SECONDS,
    ensures
        (s - MIN_SECONDS) / 86400 + MIN_EPOCH_DAY == s / 86400,
        (s - MIN_SECONDS) % 86400 == s % 86400,
        MIN_EPOCH_DAY <= s / 86400 <= MAX_EPOCH_DAY,
        (s % 86400) / 3600 < 24,
        (s % 86400) % 3600 == s % 3600,
        (s % 86400) % 60 == s % 60,
{
    let q = s / 86400;
    let r = s % 86400;
    vstd::arithmetic::div_mod::lemma_fundamental_div_mod(s, 86400);
    assert(s == q * 86400 + r);
    lemma_div_mod_of(s - MIN_SECONDS, 86400, q - MIN_EPOCH_DAY, r);
    let h = r / 3600;
    let hr = r % 3600;
    vstd::arithmetic::div_mod::lemma_fundamental_div_mod(r, 3600);
    assert(s == (q * 24 + h) * 3600 + hr);
    lemma_div_mod_of(s, 3600, q * 24 + h, hr);
    let mi = r / 60;
    let mr = r % 60;
    vstd::arithmetic::div_mod::lemma_fundamental_div_mod(r, 60);
    assert(s == (q * 1440 + mi) * 60 + mr);
    lemma_div_mod_of(s, 60, q * 1440 + mi, mr);
}

/// For `x` in `m`-th minute `x == 60 * m + rest`: its day, second of day, hour and minute.
proof fn lemma_minute_fields(x: int, m: int)
    requires
        x / 60 == m,
    ensures
        x / 86400 == m / 1440,
        (x % 86400) / 3600 == (m % 1440) / 60,
        (x % 3600) / 60 == m % 60,
{
    let rx = x % 60;
    vstd::arithmetic::div_mod::lemma_fundamental_div_mod(x, 60);
    let d = m / 1440;
    let rd = m % 1440;
    vstd::arithmetic::div_mod::lemma_fundamental_div_mod(m, 1440);
    assert(x == d * 86400 + (rd * 60 + rx));
    lemma_div_mod_of(x, 86400, d, rd * 60 + rx);
    let h = rd / 60;
    let rh = rd % 60;
    vstd::arithmetic::div_mod::lemma_fundamental_div_mod(rd, 60);
    assert(rd * 60 + rx == h * 3600 + (rh * 60 + rx));
    lemma_div_mod_of(rd * 60 + rx, 3600, h, rh * 60 + rx);
    let hh = m / 60;
    let mm = m % 60;
    vstd::arithmetic::div_mod::lemma_fundamental_div_mod(m, 60);
    assert(x == hh * 3600 + (mm * 60 + rx));
    lemma_div_mod_of(x, 3600, hh, mm * 60 + rx);
    lemma_div_mod_of(mm * 60 + rx, 60, mm, rx);
}

/// Whole milliseconds since the epoch.
pub open spec fn millis_of(t: UtcTime) -> int {
    t.secs() * 1000 + t.subsec() / 1_000_000
}

/// `a` is at or before `b`.
pub open spec fn not_after(a: UtcTime, b: UtcTime) -> bool {
    a.secs() < b.secs() || (a.secs() == b.secs() && a.subsec() <= b.subsec())
}

/// Days since 1970-01-01, counting whole days (floor).
pub open spec fn epoch_day_of(t: UtcTime) -> int {
    t.secs() / 86400
}

pub open spec fn year_of(t: UtcTime) -> int {
    civil_date_of(epoch_day_of(t)).0
}

pub open spec fn month_of(t: UtcTime) -> int {
    civil_date_of(epoch_day_of(t)).1
}

pub open spec fn day_of(t: UtcTime) -> int {
    civil_date_of(epoch_day_of(t)).2
}

pub open spec fn hour_of(t: UtcTime) -> int {
    (t.secs() % 86400) / 3600
}

pub open spec fn minute_of(t: UtcTime) -> int {
    (t.secs() % 3600) / 60
}

pub open spec fn second_of(t: UtcTime) -> int {
    t.secs() % 60
}

/// Two instants with the same seconds and nanoseconds are the same instant.
pub proof fn lemma_time_ext(a: UtcTime, b: UtcTime)
    requires
        a.secs() == b.secs(),
        a.subsec() == b.subsec(),
    ensures
        a == b,
{
}

/// Instants in one minute share their day, hour and minute.
pub proof fn lemma_same_minute_fields(a: UtcTime, b: UtcTime)
    requires
        a.secs() / 60 == b.secs() / 60,
    ensures
        epoch_day_of(a) == epoch_day_of(b),
        hour_of(a) == hour_of(b),
        minute_of(a) == minute_of(b),
{
    lemma_minute_fields(a.secs(), a.secs() / 60);
    lemma_minute_fields(b.secs(), b.secs() / 60);
}

} // verus!
