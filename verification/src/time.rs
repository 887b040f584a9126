//! Wall-clock times within one day and signed spans of time, both in whole
//! seconds.

use vstd::prelude::*;

verus! {

/// A time of day, counted in seconds since midnight.
#[derive(Clone, Copy, Debug, PartialEq, Eq, Structural, PartialOrd, Ord, Hash)]
pub struct Time {
    secs: u32,
}

impl View for Time {
    type V = int;

    /// Seconds since midnight.
    closed spec fn view(&self) -> int {
        self.secs as int
    }
}

impl Time {
    /// Every time lies within one day.
    #[verifier::type_invariant]
    pub open spec fn in_day(&self) -> bool {
        0 <= self@ < 86_400
    }

    /// The time `hour:min:sec`.
    pub fn from_hms(hour: u32, min: u32, sec: u32) -> (t: Time)
        requires
            hour < 24,
            min < 60,
            sec < 60,
        ensures
            t@ == hour * 3600 + min * 60 + sec,
            t.in_day(),
    {
        Time { secs: hour * 3600 + min * 60 + sec }
    }

    /// The time `hour:min:sec`, if there is such a time.
    pub fn from_hms_opt(hour: u32, min: u32, sec: u32) -> (t: Option<Time>)
        ensures
            t is Some <==> hour < 24 && min < 60 && sec < 60,
            t matches Some(t) ==> t@ == hour * 3600 + min * 60 + sec && t.in_day(),
    {
        if hour < 24 && min < 60 && sec < 60 {
            Some(Time::from_hms(hour, min, sec))
        } else {
            None
        }
    }

    /// Seconds since midnight.
    pub fn num_seconds_from_midnight(&self) -> (s: u32)
        ensures
            s == self@,
            self.in_day(),
    {
        proof {
            use_type_invariant(self);
        }
        self.secs
    }

    /// The hour of the day, 0 to 23.
    pub fn hour(&self) -> (h: u32)
        ensures
            h == self@ / 3600,
            h < 24,
    {
        proof {
            use_type_invariant(self);
        }
        self.secs / 3600
    }

    /// The minute of the hour, 0 to 59.
    pub fn minute(&self) -> (m: u32)
        ensures
            m == (self@ / 60) % 60,
            m < 60,
    {
        (self.secs / 60) % 60
    }

    /// The second of the minute, 0 to 59.
    pub fn second(&self) -> (s: u32)
        ensures
            s == self@ % 60,
            s < 60,
    {
        self.secs % 60
    }

    /// The span from `earlier` to `self`; negative if `self` is the earlier one.
    pub fn signed_duration_since(&self, earlier: &Time) -> (d: Duration)
        ensures
            d@ == self@ - earlier@,
            -86_400 < d@ < 86_400,
    {
        proof {
            use_type_invariant(self);
            use_type_invariant(earlier);
        }
        Duration { secs: self.secs as i64 - earlier.secs as i64 }
    }

    /// The time `seconds` seconds before `self` on the clock face: the
    /// result wraps around midnight.
    pub fn minus_seconds(&self, seconds: u64) -> (t: Time)
        ensures
            t@ == (self@ - seconds) % 86_400,
            t.in_day(),
    {
        proof {
            use_type_invariant(self);
        }
        let back: u64 = seconds % 86_400;
        let shifted: i64 = self.secs as i64 - back as i64;
        let wrapped: i64 = if shifted < 0 {
            shifted + 86_400
        } else {
            shifted
        };
        assert(wrapped == (self@ - seconds) % 86_400) by (nonlinear_arith)
            requires
                0 <= wrapped < 86_400,
                back == seconds % 86_400,
                shifted == self@ - back,
                wrapped == shifted || wrapped == shifted + 86_400,
        ;
        Time { secs: wrapped as u32 }
    }

    /// The time `minutes` minutes before `self` on the clock face: the
    /// result wraps around midnight.
    pub fn minus_minutes(&self, minutes: i64) -> (t: Time)
        ensures
            t@ == (self@ - 60 * minutes) % 86_400,
            t.in_day(),
    {
        proof {
            use_type_invariant(self);
        }
        let back: i64 = minutes % 1440;
        let shifted: i64 = self.secs as i64 - 60 * back;
        let wrapped: i64 = if shifted < 0 {
            shifted + 86_400
        } else if shifted >= 86_400 {
            shifted - 86_400
        } else {
            shifted
        };
        assert(wrapped == (self@ - 60 * minutes) % 86_400) by (nonlinear_arith)
            requires
                0 <= wrapped < 86_400,
                0 <= self@ < 86_400,
                back == minutes % 1440 || back == minutes % 1440 - 1440,
                shifted == self@ - 60 * back,
                wrapped == shifted || wrapped == shifted + 86_400 || wrapped == shifted - 86_400,
        ;
        Time { secs: wrapped as u32 }
    }
}

/// A signed span of time in whole seconds.
#[derive(Clone, Copy, Debug, PartialEq, Eq, Structural, PartialOrd, Ord, Hash)]
pub struct Duration {
    pub secs: i64,
}

impl View for Duration {
    type V = int;

    open spec fn view(&self) -> int {
        self.secs as int
    }
}

impl Duration {
    /// The empty span.
    pub fn zero() -> (d: Duration)
        ensures
            d@ == 0,
    {
        Duration { secs: 0 }
    }

    /// A span of `secs` seconds.
    pub fn seconds(secs: i64) -> (d: Duration)
        ensures
            d@ == secs,
    {
        Duration { secs }
    }

    /// The whole number `a / b` nearest to zero, for a positive `b`.
    pub open spec fn toward_zero(a: int, b: int) -> int {
        if a >= 0 {
            a / b
        } else {
            -((-a) / b)
        }
    }

    /// A span of `minutes` minutes.
    pub fn minutes(minutes: i64) -> (d: Duration)
        requires
            i64::MIN <= 60 * minutes <= i64::MAX,
        ensures
            d@ == 60 * minutes,
    {
        Duration { secs: 60 * minutes }
    }

    /// A span of `milliseconds` milliseconds, cut down to whole seconds.
    pub fn milliseconds(milliseconds: i64) -> (d: Duration)
        ensures
            d@ == Self::toward_zero(milliseconds as int, 1000),
    {
        if milliseconds >= 0 {
            Duration { secs: milliseconds / 1000 }
        } else if milliseconds == i64::MIN {
            Duration { secs: -9_223_372_036_854_775 }
        } else {
            Duration { secs: -((-milliseconds) / 1000) }
        }
    }

    /// The whole minutes in the span.
    pub fn num_minutes(&self) -> (m: i64)
        ensures
            m == Self::toward_zero(self@, 60),
    {
        if self.secs >= 0 {
            self.secs / 60
        } else if self.secs == i64::MIN {
            -153_722_867_280_912_930
        } else {
            -((-self.secs) / 60)
        }
    }

    /// The whole seconds in the span.
    pub fn num_seconds(&self) -> (s: i64)
        ensures
            s == self@,
    {
        self.secs
    }
}

} // verus!
