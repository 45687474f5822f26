use tors::{DateTime, Preferences};

fn at(year: i32, month: u32, day: u32, hour: u32, minute: u32, second: u32) -> DateTime {
    DateTime { year, month, day, hour, minute, second, nano: 0 }
}

#[test]
fn next_day_within_a_month() {
    assert_eq!(at(2022, 7, 8, 9, 10, 11).next_day(), Some(at(2022, 7, 9, 9, 10, 11)));
}

#[test]
fn next_day_rolls_over_the_month() {
    assert_eq!(at(2022, 1, 31, 23, 59, 59).next_day(), Some(at(2022, 2, 1, 23, 59, 59)));
    assert_eq!(at(2022, 3, 31, 0, 0, 0).next_day(), Some(at(2022, 4, 1, 0, 0, 0)));
    assert_eq!(at(2022, 4, 30, 12, 0, 0).next_day(), Some(at(2022, 5, 1, 12, 0, 0)));
}

#[test]
fn next_day_rolls_over_the_year() {
    assert_eq!(at(2022, 12, 31, 8, 0, 0).next_day(), Some(at(2023, 1, 1, 8, 0, 0)));
    assert_eq!(at(-1, 12, 31, 8, 0, 0).next_day(), Some(at(0, 1, 1, 8, 0, 0)));
}

#[test]
fn next_day_knows_leap_years() {
    assert_eq!(at(2024, 2, 28, 1, 2, 3).next_day(), Some(at(2024, 2, 29, 1, 2, 3)));
    assert_eq!(at(2024, 2, 29, 1, 2, 3).next_day(), Some(at(2024, 3, 1, 1, 2, 3)));
    assert_eq!(at(2023, 2, 28, 1, 2, 3).next_day(), Some(at(2023, 3, 1, 1, 2, 3)));
    assert_eq!(at(1900, 2, 28, 1, 2, 3).next_day(), Some(at(1900, 3, 1, 1, 2, 3)));
    assert_eq!(at(2000, 2, 28, 1, 2, 3).next_day(), Some(at(2000, 2, 29, 1, 2, 3)));
}

#[test]
fn next_day_keeps_the_nanoseconds() {
    let moment = DateTime { year: 2022, month: 7, day: 8, hour: 9, minute: 10, second: 11, nano: 123_456_789 };
    assert_eq!(moment.next_day(), Some(DateTime { day: 9, ..moment }));
}

#[test]
fn no_next_day_for_a_day_that_does_not_exist() {
    assert_eq!(at(2023, 2, 29, 0, 0, 0).next_day(), None);
    assert_eq!(at(2023, 2, 30, 0, 0, 0).next_day(), None);
    assert_eq!(at(2023, 4, 31, 0, 0, 0).next_day(), None);
    assert_eq!(at(2023, 13, 1, 0, 0, 0).next_day(), None);
    assert_eq!(at(2023, 0, 1, 0, 0, 0).next_day(), None);
    assert_eq!(at(2023, 1, 0, 0, 0, 0).next_day(), None);
    assert_eq!(at(2023, 1, u32::MAX, 0, 0, 0).next_day(), None);
    assert_eq!(at(i32::MAX, 1, 1, 0, 0, 0).next_day(), None);
}

#[test]
fn no_next_day_after_the_last_day() {
    assert_eq!(at(262142, 12, 30, 0, 0, 0).next_day(), Some(at(262142, 12, 31, 0, 0, 0)));
    assert_eq!(at(262142, 12, 31, 0, 0, 0).next_day(), None);
    assert_eq!(at(-262143, 1, 1, 0, 0, 0).next_day(), Some(at(-262143, 1, 2, 0, 0, 0)));
    assert_eq!(at(-262144, 1, 1, 0, 0, 0).next_day(), None);
}

#[test]
fn dates_are_ordered_field_by_field() {
    let early = at(2022, 7, 8, 9, 10, 11);
    assert!(early.le(&early));
    assert!(!early.lt(&early));
    assert!(early.lt(&at(2023, 1, 1, 0, 0, 0)));
    assert!(early.lt(&at(2022, 8, 1, 0, 0, 0)));
    assert!(early.lt(&at(2022, 7, 9, 0, 0, 0)));
    assert!(early.lt(&at(2022, 7, 8, 10, 0, 0)));
    assert!(early.lt(&at(2022, 7, 8, 9, 11, 0)));
    assert!(early.lt(&at(2022, 7, 8, 9, 10, 12)));
    assert!(early.lt(&DateTime { nano: 1, ..early }));
    assert!(!at(2023, 1, 1, 0, 0, 0).le(&early));
    assert!(at(-5, 12, 31, 23, 59, 59).lt(&at(5, 1, 1, 0, 0, 0)));
}

#[test]
fn starting_preferences_expire_on_the_next_day() {
    let now = at(2022, 12, 31, 18, 30, 0);
    assert_eq!(
        Preferences::starting(&now),
        Some(Preferences { daily_repeat: false, expire: at(2023, 1, 1, 18, 30, 0), exp: 25 })
    );
    assert_eq!(Preferences::starting(&at(2022, 2, 31, 0, 0, 0)), None);
}

#[test]
fn next_day_is_the_day_that_follows_in_the_calendar() {
    let mut day = chrono::NaiveDate::from_ymd_opt(1896, 1, 1).unwrap();
    let end = chrono::NaiveDate::from_ymd_opt(2104, 12, 31).unwrap();
    while day < end {
        let next = day.succ_opt().unwrap();
        let here = at(chrono::Datelike::year(&day), chrono::Datelike::month(&day), chrono::Datelike::day(&day), 6, 7, 8);
        let there = at(chrono::Datelike::year(&next), chrono::Datelike::month(&next), chrono::Datelike::day(&next), 6, 7, 8);
        assert_eq!(here.next_day(), Some(there));
        assert!(here.lt(&there));
        day = next;
    }
}

#[test]
fn order_of_dates_is_the_order_of_the_calendar() {
    let moments = [
        (1999, 12, 31, 23, 59, 59, 999_999_999),
        (2000, 1, 1, 0, 0, 0, 0),
        (2000, 1, 1, 0, 0, 0, 1),
        (2000, 2, 29, 12, 0, 0, 0),
        (2000, 3, 1, 0, 0, 59, 0),
        (2000, 3, 1, 0, 1, 0, 0),
        (-44, 3, 15, 12, 0, 0, 0),
        (2000, 3, 1, 0, 0, 59, 1_500_000_000),
    ];
    for a in moments {
        for b in moments {
            let x = DateTime { year: a.0, month: a.1, day: a.2, hour: a.3, minute: a.4, second: a.5, nano: a.6 };
            let y = DateTime { year: b.0, month: b.1, day: b.2, hour: b.3, minute: b.4, second: b.5, nano: b.6 };
            let p = chrono::NaiveDate::from_ymd_opt(a.0, a.1, a.2).unwrap().and_hms_nano_opt(a.3, a.4, a.5, a.6).unwrap();
            let q = chrono::NaiveDate::from_ymd_opt(b.0, b.1, b.2).unwrap().and_hms_nano_opt(b.3, b.4, b.5, b.6).unwrap();
            assert_eq!(x.le(&y), p <= q);
            assert_eq!(x.lt(&y), p < q);
        }
    }
}
