//! The in-game calendar: a year is 12 months of 30 days (360 days), the
//! weekend comes every seventh day, on a cycle that runs on from one year
//! into the next, and two fixed days of the year stop the advance of time
//! (the budget session and the world cup).

use vstd::prelude::*;

use crate::text::{decimal, decimal_chars};

verus! {

pub const DAYS_PER_MONTH: u16 = 30;

pub const MONTHS_PER_YEAR: u16 = 12;

pub const DAYS_PER_YEAR: u16 = 360;

/// A game date. `doy` (day of year) runs over `1..=360`.
#[derive(Clone, Copy, PartialEq, Eq, PartialOrd, Ord, Hash, Debug, Structural)]
pub struct Date {
    pub year: u16,
    pub doy: u16,
}

impl Date {
    /// A well-formed date has its day of year in `1..=360`.
    pub open spec fn wf(self) -> bool {
        1 <= self.doy <= DAYS_PER_YEAR
    }

    /// Days elapsed since the start of the calendar, counting the first day as 1.
    pub open spec fn spec_absolute(self) -> int {
        (self.year - 1) * DAYS_PER_YEAR + self.doy
    }

    pub fn new(year: u16, doy: u16) -> (d: Date)
        requires
            1 <= doy <= DAYS_PER_YEAR,
        ensures
            d.year == year,
            d.doy == doy,
            d.wf(),
    {
        Date { year, doy }
    }

    /// Date order: by year, then by day of year.
    pub open spec fn spec_on_or_before(self, other: Date) -> bool {
        self.year < other.year || (self.year == other.year && self.doy <= other.doy)
    }

    pub fn on_or_before(self, other: Date) -> (b: bool)
        ensures
            b == self.spec_on_or_before(other),
    {
        self.year < other.year || (self.year == other.year && self.doy <= other.doy)
    }

    pub open spec fn spec_next(self) -> Date {
        if self.doy >= DAYS_PER_YEAR {
            Date { year: (self.year + 1) as u16, doy: 1 }
        } else {
            Date { year: self.year, doy: (self.doy + 1) as u16 }
        }
    }

    /// The next day; the last day of a year is followed by day 1 of the next year.
    pub fn next(self) -> (d: Date)
        requires
            self.doy < DAYS_PER_YEAR || self.year < u16::MAX,
        ensures
            d == self.spec_next(),
            self.doy >= DAYS_PER_YEAR ==> d.year == self.year + 1 && d.doy == 1,
            self.doy < DAYS_PER_YEAR ==> d.year == self.year && d.doy == self.doy + 1,
    {
        if self.doy >= DAYS_PER_YEAR {
            Date { year: self.year + 1, doy: 1 }
        } else {
            Date { year: self.year, doy: self.doy + 1 }
        }
    }

    /// Month of the year, `1..=12`.
    pub fn month(self) -> (m: u16)
        requires
            self.doy >= 1,
        ensures
            m == (self.doy - 1) / (DAYS_PER_MONTH as int) + 1,
            self.wf() ==> 1 <= m <= MONTHS_PER_YEAR,
    {
        (self.doy - 1) / DAYS_PER_MONTH + 1
    }

    /// Day of the month, `1..=30`.
    pub fn day(self) -> (d: u16)
        requires
            self.doy >= 1,
        ensures
            d == (self.doy - 1) % (DAYS_PER_MONTH as int) + 1,
            1 <= d <= DAYS_PER_MONTH,
    {
        (self.doy - 1) % DAYS_PER_MONTH + 1
    }

    /// The weekly town tournament falls on every seventh day, counted over
    /// the whole calendar, so the cycle runs on across the turn of a year.
    pub fn is_weekend(self) -> (b: bool)
        ensures
            b == (self.spec_absolute() % 7 == 0),
    {
        // (year - 1) * 360 + doy, shifted by 52 weeks so that it stays non-negative
        let y: u32 = self.year as u32;
        assert(y * 360 <= 65535 * 360) by (nonlinear_arith)
            requires
                y <= 65535,
        ;
        let n: u32 = y * (DAYS_PER_YEAR as u32) + self.doy as u32 + 4;
        proof {
            let a = self.spec_absolute();
            assert(n == a + 7 * 52);
            assert(n % 7 == a % 7) by {
                lemma_mod_shift(a, 52);
            }
        }
        n % 7 == 0
    }

    /// Days since the start of the calendar; used to order history and series.
    pub fn absolute(self) -> (n: u32)
        requires
            self.year >= 1,
        ensures
            n == self.spec_absolute(),
    {
        let y: u32 = self.year as u32 - 1;
        assert(y * 360 <= 65535 * 360) by (nonlinear_arith)
            requires
                y <= 65535,
        ;
        y * (DAYS_PER_YEAR as u32) + self.doy as u32
    }

    /// The date as shown to the player: `{year}年{month}月{day}日`.
    pub fn label(self) -> (s: String)
        requires
            self.doy >= 1,
        ensures
            s@ == decimal_chars(self.year as nat) + "年"@ + decimal_chars(
                ((self.doy - 1) / (DAYS_PER_MONTH as int) + 1) as nat,
            ) + "月"@ + decimal_chars(((self.doy - 1) % (DAYS_PER_MONTH as int) + 1) as nat)
                + "日"@,
    {
        let mut s = decimal(self.year as u64);
        s.append("年");
        s.append(decimal(self.month() as u64).as_str());
        s.append("月");
        s.append(decimal(self.day() as u64).as_str());
        s.append("日");
        s
    }

    /// Days from this date until the next day whose day of year is `doy`;
    /// 0 when that is today.
    pub fn days_until(self, doy: u16) -> (n: u16)
        requires
            doy >= self.doy || self.doy <= DAYS_PER_YEAR,
        ensures
            doy >= self.doy ==> n == doy - self.doy,
            doy < self.doy ==> n == DAYS_PER_YEAR - self.doy + doy,
    {
        if doy >= self.doy {
            doy - self.doy
        } else {
            DAYS_PER_YEAR - self.doy + doy
        }
    }
}

/// Placement of the yearly events, in days of the year.
#[derive(Clone, Copy, Debug)]
pub struct CalendarDefs {
    /// The budget session.
    pub budget_doy: u16,
    /// The world cup.
    pub cup_doy: u16,
}

/// Why the advance of time stops: only the two yearly events stop it.
#[derive(Clone, Copy, PartialEq, Eq, Debug, Structural)]
pub enum StopReason {
    Budget,
    Cup,
}

impl Default for Date {
    /// The first day of the first year.
    fn default() -> (d: Date)
        ensures
            d.year == 1,
            d.doy == 1,
    {
        Date { year: 1, doy: 1 }
    }
}

impl Default for CalendarDefs {
    /// The standard placement: the budget on day 60 and the cup on day 330.
    fn default() -> (c: CalendarDefs)
        ensures
            c.budget_doy == 60,
            c.cup_doy == 330,
    {
        CalendarDefs { budget_doy: 60, cup_doy: 330 }
    }
}

impl CalendarDefs {
    /// Whether reaching `date` stops the advance, and why. The budget wins
    /// when both events were placed on the same day.
    pub fn stop_reason(&self, date: Date) -> (r: Option<StopReason>)
        ensures
            date.doy == self.budget_doy ==> r == Some(StopReason::Budget),
            date.doy != self.budget_doy && date.doy == self.cup_doy ==> r == Some(StopReason::Cup),
            date.doy != self.budget_doy && date.doy != self.cup_doy ==> r is None,
    {
        if date.doy == self.budget_doy {
            Some(StopReason::Budget)
        } else if date.doy == self.cup_doy {
            Some(StopReason::Cup)
        } else {
            None
        }
    }
}


/// Adding whole weeks does not change the day of the week.
proof fn lemma_mod_shift(a: int, k: nat)
    ensures
        (a + 7 * k) % 7 == a % 7,
    decreases k,
{
    if k > 0 {
        lemma_mod_shift(a, (k - 1) as nat);
        vstd::arithmetic::div_mod::lemma_mod_add_multiples_vanish(a + 7 * (k - 1), 7);
    }
}

/// The day after a valid date is valid and one day later in absolute terms.
pub proof fn lemma_next_is_one_day_later(d: Date)
    requires
        d.wf(),
        d.doy < DAYS_PER_YEAR || d.year < u16::MAX,
    ensures
        d.spec_next().wf(),
        d.spec_next().spec_absolute() == d.spec_absolute() + 1,
{
}

/// Dates are ordered as the days they fall on: one valid date is on or
/// before another exactly when its absolute day is not later.
pub proof fn lemma_order_follows_absolute_days(a: Date, b: Date)
    requires
        a.wf(),
        b.wf(),
    ensures
        a.spec_on_or_before(b) <==> a.spec_absolute() <= b.spec_absolute(),
{
    if a.year < b.year {
        assert((a.year - 1) * 360 + 360 <= (b.year - 1) * 360) by (nonlinear_arith)
            requires
                a.year < b.year,
        ;
    } else if a.year > b.year {
        assert((b.year - 1) * 360 + 360 <= (a.year - 1) * 360) by (nonlinear_arith)
            requires
                b.year < a.year,
        ;
    }
}

/// Counting `days_until(t)` days forward from a valid date lands on day of
/// year `t`, and the count is less than a year.
pub proof fn lemma_days_until_lands_on(d: Date, t: u16)
    requires
        d.wf(),
        1 <= t <= DAYS_PER_YEAR,
    ensures
        ({
            let n = if t >= d.doy {
                t - d.doy
            } else {
                DAYS_PER_YEAR - d.doy + t
            };
            &&& 0 <= n < DAYS_PER_YEAR
            &&& (d.doy - 1 + n) % (DAYS_PER_YEAR as int) + 1 == t
        }),
{
}

/// The month and the day of the month together give back the day of year.
pub proof fn lemma_month_day_roundtrip(d: Date)
    requires
        d.wf(),
    ensures
        ((d.doy - 1) / (DAYS_PER_MONTH as int)) * DAYS_PER_MONTH + ((d.doy - 1) % (
        DAYS_PER_MONTH as int)) + 1 == d.doy,
{
}

} // verus!
