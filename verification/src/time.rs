//! The in-world clock: a day/hour/minute triple advanced by whole minutes.

use vstd::prelude::*;

verus! {

/// An in-world clock. After normalization `hour` lies in 0..=23 and
/// `minute` in 0..=59; the clock never runs backwards.
#[derive(Clone, Copy, Debug, PartialEq, Eq, Structural)]
pub struct Time {
    pub day: i32,
    pub hour: i32,
    pub minute: i32,
}

/// The clock as unbounded integers, for contracts.
pub ghost struct TimeV {
    pub day: int,
    pub hour: int,
    pub minute: int,
}

impl View for Time {
    type V = TimeV;

    open spec fn view(&self) -> TimeV {
        TimeV { day: self.day as int, hour: self.hour as int, minute: self.minute as int }
    }
}

/// The ranges the clock fields keep between calls to `advance`.
pub open spec fn time_normalized(t: TimeV) -> bool {
    &&& 0 <= t.hour <= 23
    &&& 0 <= t.minute <= 59
}

/// What advancing a normalized clock by `m` minutes yields: `m` is split
/// into whole days, whole hours and remainder minutes, each component is
/// added to its field, then a single carry normalizes minutes into hours,
/// and an overflowing hour resets to 0 carrying one day.
pub open spec fn advance_spec(t: TimeV, m: int) -> TimeV
    recommends
        0 <= m,
{
    let day1 = t.day + m / 1440;
    let hour1 = t.hour + (m % 1440) / 60;
    let minute1 = t.minute + m % 60;
    let minute2 = if minute1 > 59 {
        minute1 % 60
    } else {
        minute1
    };
    let hour2 = if minute1 > 59 {
        hour1 + 1
    } else {
        hour1
    };
    let hour3 = if hour2 > 23 {
        0
    } else {
        hour2
    };
    let day2 = if hour2 > 23 {
        day1 + 1
    } else {
        day1
    };
    TimeV { day: day2, hour: hour3, minute: minute2 }
}

impl Time {
    /// Advance the clock by `minutes` in-world minutes and normalize.
    pub fn advance(&mut self, minutes: i32)
        requires
            0 <= minutes,
            time_normalized(old(self)@),
            old(self)@.day + minutes as int / 1440 + 1 <= i32::MAX,
        ensures
            final(self)@ == advance_spec(old(self)@, minutes as int),
            time_normalized(final(self)@),
            final(self)@.day >= old(self)@.day,
    {
        let days_increased: i32 = minutes / 1440;
        let hours_increased: i32 = (minutes % 1440) / 60;
        let minutes_increased: i32 = minutes % 60;

        self.day = self.day + days_increased;
        self.hour = self.hour + hours_increased;
        self.minute = self.minute + minutes_increased;

        if self.minute > 59 {
            self.minute = self.minute % 60;
            self.hour = self.hour + 1;
        }

        if self.hour > 23 {
            self.hour = 0;
            self.day = self.day + 1;
        }
    }
}

} // verus!
