//! The game's time: today's date and the days of progress still to run.
//! Time moves only while days are pending; a run of pending days stops on
//! the day of an annual event (the budget session or the cup), and the days
//! left after it stay pending until the player resumes.

use vstd::prelude::*;

use crate::calendar::{CalendarDefs, Date, StopReason, DAYS_PER_YEAR};

verus! {

#[derive(Clone, Copy, PartialEq, Eq, Debug, Structural)]
pub struct Clock {
    pub date: Date,
    /// Days of progress still to run; kept when progress stops for an annual event.
    pub pending_days: u16,
}

/// The annual event that stops progress on `date`, if any.
pub open spec fn stop_on(cal: CalendarDefs, date: Date) -> Option<StopReason> {
    if date.doy == cal.budget_doy {
        Some(StopReason::Budget)
    } else if date.doy == cal.cup_doy {
        Some(StopReason::Cup)
    } else {
        None
    }
}

/// The date `k` days after `date`.
pub open spec fn days_after(date: Date, k: nat) -> Date
    decreases k,
{
    if k == 0 {
        date
    } else {
        days_after(date, (k - 1) as nat).spec_next()
    }
}

/// How many days a run of `pending` days from `date` lasts: up to and
/// including the first day of an annual event, and at most `pending`.
pub open spec fn run_length(cal: CalendarDefs, date: Date, pending: nat) -> nat
    decreases pending,
{
    if pending == 0 {
        0
    } else if stop_on(cal, date.spec_next()) is Some {
        1
    } else {
        1 + run_length(cal, date.spec_next(), (pending - 1) as nat)
    }
}

impl Clock {
    /// The first day of the first year, nothing pending.
    pub fn new() -> (c: Clock)
        ensures
            c.date == (Date { year: 1, doy: 1 }),
            c.pending_days == 0,
    {
        Clock { date: Date::new(1, 1), pending_days: 0 }
    }

    pub fn has_pending(&self) -> (b: bool)
        ensures
            b == (self.pending_days > 0),
    {
        self.pending_days > 0
    }

    /// Moves to the next day: the first thing a day of simulation does.
    pub fn next_day(&mut self)
        requires
            old(self).date.doy < DAYS_PER_YEAR || old(self).date.year < u16::MAX,
        ensures
            final(self).date == old(self).date.spec_next(),
            final(self).pending_days == old(self).pending_days,
    {
        self.date = self.date.next();
    }

    /// A pending day has been run.
    pub fn use_day(&mut self)
        requires
            old(self).pending_days > 0,
        ensures
            final(self).date == old(self).date,
            final(self).pending_days == old(self).pending_days - 1,
    {
        self.pending_days = self.pending_days - 1;
    }

    /// The number of days that running the pending days will step before it
    /// stops: on the first day of an annual event, or when none are left.
    /// The run must stay within the last representable year.
    pub fn days_to_advance(&self, cal: &CalendarDefs) -> (n: u16)
        requires
            self.date.wf(),
            self.date.spec_absolute() + self.pending_days <= u16::MAX as int * DAYS_PER_YEAR,
        ensures
            n == run_length(*cal, self.date, self.pending_days as nat),
            n <= self.pending_days,
    {
        let mut d = self.date;
        let mut k: u16 = 0;
        while k < self.pending_days
            invariant
                k <= self.pending_days,
                d == days_after(self.date, k as nat),
                self.date.wf(),
                self.date.spec_absolute() + self.pending_days <= u16::MAX as int * DAYS_PER_YEAR,
                forall|j: nat| 1 <= j <= k ==> stop_on(*cal, #[trigger] days_after(self.date, j)) is None,
            decreases self.pending_days - k,
        {
            proof {
                lemma_days_after_absolute(self.date, k as nat);
                if d.doy == DAYS_PER_YEAR {
                    assert(d.year < u16::MAX) by (nonlinear_arith)
                        requires
                            (d.year - 1) * 360 + 360 < 65535 * 360,
                    ;
                }
            }
            d = d.next();
            k = k + 1;
            proof {
                assert(d == days_after(self.date, k as nat));
            }
            if cal.stop_reason(d).is_some() {
                proof {
                    lemma_run_length_stops(*cal, self.date, self.pending_days as nat, k as nat);
                }
                return k;
            }
        }
        proof {
            lemma_run_length_full(*cal, self.date, self.pending_days as nat);
        }
        k
    }
}

/// Within the last representable year, `k` days after a well-formed date is
/// a well-formed date whose absolute day is `k` later.
proof fn lemma_days_after_absolute(date: Date, k: nat)
    requires
        date.wf(),
        date.spec_absolute() + k <= u16::MAX as int * DAYS_PER_YEAR,
    ensures
        days_after(date, k).wf(),
        days_after(date, k).spec_absolute() == date.spec_absolute() + k,
    decreases k,
{
    if k > 0 {
        lemma_days_after_absolute(date, (k - 1) as nat);
        let p = days_after(date, (k - 1) as nat);
        if p.doy == DAYS_PER_YEAR {
            assert(p.year < u16::MAX) by (nonlinear_arith)
                requires
                    (p.year - 1) * 360 + 360 < 65535 * 360,
            ;
        }
    }
}

/// A run that meets its first annual event after `k` days lasts `k` days.
proof fn lemma_run_length_stops(cal: CalendarDefs, date: Date, pending: nat, k: nat)
    requires
        1 <= k <= pending,
        stop_on(cal, days_after(date, k)) is Some,
        forall|j: nat| 1 <= j < k ==> stop_on(cal, #[trigger] days_after(date, j)) is None,
    ensures
        run_length(cal, date, pending) == k,
    decreases k,
{
    lemma_days_after_shift(date, k);
    if k == 1 {
        assert(days_after(date, 1) == date.spec_next()) by {
            reveal_with_fuel(days_after, 2);
        }
    } else {
        assert(days_after(date, 1) == date.spec_next()) by {
            reveal_with_fuel(days_after, 2);
        }
        assert(stop_on(cal, days_after(date, 1)) is None);
        assert forall|j: nat| 1 <= j < (k - 1) as nat implies stop_on(
            cal,
            #[trigger] days_after(date.spec_next(), j),
        ) is None by {
            lemma_days_after_shift(date, j + 1);
            assert(stop_on(cal, days_after(date, j + 1)) is None);
        }
        lemma_run_length_stops(cal, date.spec_next(), (pending - 1) as nat, (k - 1) as nat);
    }
}

/// A run that meets no annual event lasts all its pending days.
proof fn lemma_run_length_full(cal: CalendarDefs, date: Date, pending: nat)
    requires
        forall|j: nat| 1 <= j <= pending ==> stop_on(cal, #[trigger] days_after(date, j)) is None,
    ensures
        run_length(cal, date, pending) == pending,
    decreases pending,
{
    if pending > 0 {
        assert(days_after(date, 1) == date.spec_next()) by {
            reveal_with_fuel(days_after, 2);
        }
        assert(stop_on(cal, days_after(date, 1)) is None);
        assert forall|j: nat| 1 <= j <= (pending - 1) as nat implies stop_on(
            cal,
            #[trigger] days_after(date.spec_next(), j),
        ) is None by {
            lemma_days_after_shift(date, j + 1);
            assert(stop_on(cal, days_after(date, j + 1)) is None);
        }
        lemma_run_length_full(cal, date.spec_next(), (pending - 1) as nat);
    }
}

/// `k` days after `date` is `k - 1` days after the day after `date`.
proof fn lemma_days_after_shift(date: Date, k: nat)
    requires
        k >= 1,
    ensures
        days_after(date, k) == days_after(date.spec_next(), (k - 1) as nat),
    decreases k,
{
    reveal_with_fuel(days_after, 2);
    if k > 1 {
        lemma_days_after_shift(date, (k - 1) as nat);
    }
}

/// A run passes no annual event: every day before its last is free of
/// them, a run cut short of its pending days ends on one, and a run with
/// days pending steps at least one day.
pub proof fn lemma_run_stops_at_first_event(cal: CalendarDefs, date: Date, pending: nat)
    ensures
        run_length(cal, date, pending) <= pending,
        pending > 0 ==> run_length(cal, date, pending) >= 1,
        forall|j: nat|
            1 <= j < run_length(cal, date, pending) ==> stop_on(cal, #[trigger] days_after(date, j))
                is None,
        run_length(cal, date, pending) < pending ==> stop_on(
            cal,
            days_after(date, run_length(cal, date, pending)),
        ) is Some,
    decreases pending,
{
    reveal_with_fuel(days_after, 2);
    if pending > 0 && stop_on(cal, date.spec_next()) is None {
        let next = date.spec_next();
        lemma_run_stops_at_first_event(cal, next, (pending - 1) as nat);
        let n = run_length(cal, date, pending);
        assert forall|j: nat| 1 <= j < n implies stop_on(cal, #[trigger] days_after(date, j)) is None by {
            lemma_days_after_shift(date, j);
            if j > 1 {
                assert(stop_on(cal, days_after(next, (j - 1) as nat)) is None);
            }
        }
        if n < pending {
            lemma_days_after_shift(date, n);
        }
    }
}

/// The day of the year `k` days after `date`.
proof fn lemma_days_after_doy(date: Date, k: nat)
    requires
        date.wf(),
    ensures
        days_after(date, k).doy == (date.doy - 1 + k) % (DAYS_PER_YEAR as int) + 1,
    decreases k,
{
    if k > 0 {
        lemma_days_after_doy(date, (k - 1) as nat);
    }
}

/// A run with an annual event `k` days ahead, within its pending days, lasts at most `k` days.
proof fn lemma_run_bounded_by_event(cal: CalendarDefs, date: Date, pending: nat, k: nat)
    requires
        1 <= k <= pending,
        stop_on(cal, days_after(date, k)) is Some,
    ensures
        run_length(cal, date, pending) <= k,
    decreases k,
{
    reveal_with_fuel(days_after, 2);
    if k > 1 && stop_on(cal, date.spec_next()) is None {
        lemma_days_after_shift(date, k);
        lemma_run_bounded_by_event(cal, date.spec_next(), (pending - 1) as nat, (k - 1) as nat);
    }
}

/// Progress stops at least once a year: with the budget day inside the
/// year, no run lasts longer than a year.
pub proof fn lemma_runs_stop_within_a_year(cal: CalendarDefs, date: Date, pending: nat)
    requires
        date.wf(),
        1 <= cal.budget_doy <= DAYS_PER_YEAR,
    ensures
        run_length(cal, date, pending) <= DAYS_PER_YEAR,
{
    lemma_run_stops_at_first_event(cal, date, pending);
    let t = cal.budget_doy as int;
    let k: nat = if t > date.doy {
        (t - date.doy) as nat
    } else {
        (t - date.doy + DAYS_PER_YEAR) as nat
    };
    lemma_days_after_doy(date, k);
    assert(days_after(date, k).doy == t);
    if k <= pending {
        lemma_run_bounded_by_event(cal, date, pending, k);
    }
}

} // verus!
