use kbism::calendar::{CalendarDefs, Date};
use kbism::clock::Clock;

fn clock(year: u16, doy: u16, pending: u16) -> Clock {
    Clock { date: Date::new(year, doy), pending_days: pending }
}

/// What running the pending days one at a time does, the way the game loop does it.
fn run(mut c: Clock, cal: &CalendarDefs) -> (Clock, u16, bool) {
    let mut steps = 0;
    while c.has_pending() {
        c.next_day();
        c.use_day();
        steps += 1;
        if cal.stop_reason(c.date).is_some() {
            return (c, steps, true);
        }
    }
    (c, steps, false)
}

#[test]
fn a_new_clock_starts_on_the_first_day() {
    let c = Clock::new();
    assert_eq!(c.date, Date::new(1, 1));
    assert!(!c.has_pending());
    assert_eq!(c.days_to_advance(&CalendarDefs::default()), 0);
}

#[test]
fn next_day_and_use_day() {
    let mut c = clock(1, 360, 3);
    c.next_day();
    assert_eq!(c.date, Date::new(2, 1));
    assert_eq!(c.pending_days, 3);
    c.use_day();
    assert_eq!(c.pending_days, 2);
    assert_eq!(c.date, Date::new(2, 1));
}

#[test]
fn a_run_without_events_uses_every_pending_day() {
    let cal = CalendarDefs::default();
    assert_eq!(clock(1, 1, 10).days_to_advance(&cal), 10);
    let (c, steps, stopped) = run(clock(1, 1, 10), &cal);
    assert_eq!((steps, stopped), (10, false));
    assert_eq!(c.date, Date::new(1, 11));
    assert_eq!(c.pending_days, 0);
}

#[test]
fn a_run_stops_on_the_budget_day_and_keeps_the_rest_pending() {
    let cal = CalendarDefs::default();
    let start = clock(1, 50, 30);
    assert_eq!(start.days_to_advance(&cal), 10);
    let (c, steps, stopped) = run(start, &cal);
    assert_eq!((steps, stopped), (10, true));
    assert_eq!(c.date, Date::new(1, 60));
    assert_eq!(c.pending_days, 20);
    assert_eq!(c.days_to_advance(&cal), 20);
}

#[test]
fn a_run_does_not_stop_on_the_day_it_starts() {
    let cal = CalendarDefs::default();
    assert_eq!(clock(1, 330, 5).days_to_advance(&cal), 5);
    assert_eq!(clock(1, 329, 5).days_to_advance(&cal), 1);
}

#[test]
fn days_to_advance_agrees_with_running_day_by_day() {
    let cal = CalendarDefs { budget_doy: 20, cup_doy: 300 };
    for doy in [1u16, 19, 20, 21, 299, 300, 359, 360] {
        for pending in [0u16, 1, 2, 40, 400, 1000] {
            let c = clock(3, doy, pending);
            let (_, steps, _) = run(c, &cal);
            assert_eq!(c.days_to_advance(&cal), steps);
            assert!(steps <= 360);
        }
    }
}
