use kbism::calendar::{CalendarDefs, Date, StopReason, DAYS_PER_YEAR};

#[test]
fn date_default_is_first_day_of_first_year() {
    let d = Date::default();
    assert_eq!(d, Date::new(1, 1));
    assert_eq!(d.absolute(), 1);
}

#[test]
fn next_moves_one_day_and_wraps_the_year() {
    assert_eq!(Date::new(1, 1).next(), Date::new(1, 2));
    assert_eq!(Date::new(1, 359).next(), Date::new(1, 360));
    assert_eq!(Date::new(1, 360).next(), Date::new(2, 1));
    assert_eq!(Date::new(7, 360).next(), Date::new(8, 1));
}

#[test]
fn next_is_one_day_later_in_absolute_days() {
    let mut d = Date::new(1, 1);
    for _ in 0..800 {
        let n = d.next();
        assert_eq!(n.absolute(), d.absolute() + 1);
        d = n;
    }
    assert_eq!(d, Date::new(3, 81));
}

#[test]
fn month_and_day_of_year() {
    let d = Date::new(1, 1);
    assert_eq!((d.month(), d.day()), (1, 1));
    let d = Date::new(1, 30);
    assert_eq!((d.month(), d.day()), (1, 30));
    let d = Date::new(1, 31);
    assert_eq!((d.month(), d.day()), (2, 1));
    let d = Date::new(1, 360);
    assert_eq!((d.month(), d.day()), (12, 30));
    let d = Date::new(1, 60);
    assert_eq!((d.month(), d.day()), (2, 30));
}

#[test]
fn month_and_day_give_back_the_day_of_year() {
    for doy in 1..=DAYS_PER_YEAR {
        let d = Date::new(4, doy);
        assert_eq!((d.month() - 1) * 30 + d.day(), doy);
    }
}

#[test]
fn weekends_come_every_seventh_day() {
    assert!(Date::new(1, 7).is_weekend());
    assert!(Date::new(1, 14).is_weekend());
    assert!(!Date::new(1, 1).is_weekend());
    assert!(!Date::new(1, 8).is_weekend());
    let count = (1..=DAYS_PER_YEAR).filter(|d| Date::new(1, *d).is_weekend()).count();
    assert_eq!(count, 51);
}

#[test]
fn the_weekly_cycle_runs_on_across_the_year_end() {
    assert!(Date::new(1, 357).is_weekend());
    assert!(Date::new(2, 4).is_weekend());
    assert!(!Date::new(2, 7).is_weekend());
    assert!(Date::new(2, 11).is_weekend());
    let mut d = Date::new(1, 1);
    let mut last: Option<u32> = None;
    for _ in 0..1500 {
        if d.is_weekend() {
            if let Some(prev) = last {
                assert_eq!(d.absolute() - prev, 7);
            }
            last = Some(d.absolute());
        }
        d = d.next();
    }
}

#[test]
fn absolute_counts_days_from_the_start() {
    assert_eq!(Date::new(1, 360).absolute(), 360);
    assert_eq!(Date::new(2, 1).absolute(), 361);
    assert_eq!(Date::new(3, 45).absolute(), 765);
}

#[test]
fn days_until_today_is_zero_and_wraps_the_year() {
    let d = Date::new(1, 100);
    assert_eq!(d.days_until(100), 0);
    assert_eq!(d.days_until(130), 30);
    assert_eq!(d.days_until(60), 320);
    assert_eq!(Date::new(1, 360).days_until(1), 1);
}

#[test]
fn days_until_lands_on_the_target_day() {
    for start in [1u16, 59, 60, 61, 200, 330, 360] {
        for target in [1u16, 60, 330, 360] {
            let mut d = Date::new(1, start);
            for _ in 0..Date::new(1, start).days_until(target) {
                d = d.next();
            }
            assert_eq!(d.doy, target);
        }
    }
}

#[test]
fn label_reads_year_month_day() {
    assert_eq!(Date::new(1, 1).label(), "1年1月1日");
    assert_eq!(Date::new(12, 75).label(), "12年3月15日");
    assert_eq!(Date::new(3, 360).label(), "3年12月30日");
}

#[test]
fn on_or_before_orders_dates() {
    assert!(Date::new(1, 5).on_or_before(Date::new(1, 5)));
    assert!(Date::new(1, 5).on_or_before(Date::new(1, 6)));
    assert!(Date::new(1, 360).on_or_before(Date::new(2, 1)));
    assert!(!Date::new(2, 1).on_or_before(Date::new(1, 360)));
}

#[test]
fn stop_reason_on_budget_and_cup_days() {
    let c = CalendarDefs::default();
    assert_eq!(c.budget_doy, 60);
    assert_eq!(c.cup_doy, 330);
    assert_eq!(c.stop_reason(Date::new(1, 60)), Some(StopReason::Budget));
    assert_eq!(c.stop_reason(Date::new(5, 330)), Some(StopReason::Cup));
    assert_eq!(c.stop_reason(Date::new(1, 61)), None);
    let same = CalendarDefs { budget_doy: 10, cup_doy: 10 };
    assert_eq!(same.stop_reason(Date::new(1, 10)), Some(StopReason::Budget));
}

#[test]
fn a_year_stops_once_for_the_budget_and_once_for_the_cup() {
    let c = CalendarDefs::default();
    let mut d = Date::new(1, 1);
    let mut stops = Vec::new();
    for _ in 0..DAYS_PER_YEAR {
        if let Some(r) = c.stop_reason(d) {
            stops.push((d.doy, r));
        }
        d = d.next();
    }
    assert_eq!(stops, vec![(60, StopReason::Budget), (330, StopReason::Cup)]);
}

#[test]
fn date_order_matches_the_order_of_absolute_days() {
    let dates = [Date::new(1, 1), Date::new(1, 360), Date::new(2, 1), Date::new(2, 45), Date::new(3, 7)];
    for a in dates.iter() {
        for b in dates.iter() {
            assert_eq!(a.on_or_before(*b), a.absolute() <= b.absolute());
        }
    }
}
