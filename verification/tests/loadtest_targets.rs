use chrono::{Datelike, NaiveDate};
use rental_api::fixtures::{
    calendar_view_window, collect_booking_fixtures, extract_free_windows, flush_run, pick,
    sample_houses, view_window_of, windows_of_sorted, FixtureBooking, FixtureDay, FreeWindow,
    BOOKING_SAMPLE_HOUSES, CALENDAR_SAMPLE_HOUSES,
};
use rental_api::models::Date;

fn d(s: &str) -> Date {
    Date(NaiveDate::parse_from_str(s, "%Y-%m-%d").unwrap().num_days_from_ce())
}

fn day(s: &str, status: &str) -> FixtureDay {
    FixtureDay { date: d(s), status: status.to_string() }
}

fn w(house_id: i64, from: &str, to: &str) -> FreeWindow {
    FreeWindow { house_id, from: d(from), to: d(to) }
}

#[test]
fn runs_give_non_overlapping_three_day_windows() {
    let run: Vec<Date> = (1..=7).map(|i| d(&format!("2025-03-{i:02}"))).collect();
    let mut out = Vec::new();
    flush_run(4, &run, 3, &mut out);
    assert_eq!(out, vec![w(4, "2025-03-01", "2025-03-03"), w(4, "2025-03-04", "2025-03-06")]);
    let mut none = Vec::new();
    flush_run(4, &run[..2].to_vec(), 3, &mut none);
    assert!(none.is_empty());
}

#[test]
fn free_windows_skip_unrentable_days_and_gaps() {
    let entries = vec![
        day("2025-01-05", "Rentable"),
        day("2025-01-01", "Rentable"),
        day("2025-01-02", "Rentable"),
        day("2025-01-03", "Rented"),
        day("2025-01-04", "Rentable"),
        day("2025-01-06", "Rentable"),
        day("2025-01-08", "Rentable"),
        day("2025-01-09", "Rentable"),
        day("2025-01-10", "Rentable"),
        day("2025-01-11", "NotRentable"),
    ];
    let mut out = vec![w(1, "2024-12-01", "2024-12-03")];
    extract_free_windows(9, &entries, &mut out);
    assert_eq!(
        out,
        vec![w(1, "2024-12-01", "2024-12-03"), w(9, "2025-01-04", "2025-01-06"), w(9, "2025-01-08", "2025-01-10")]
    );
}

#[test]
fn sorted_days_split_into_runs() {
    let ds = vec![d("2025-02-27"), d("2025-02-28"), d("2025-03-01"), d("2025-03-02"), d("2025-03-05")];
    let mut out = Vec::new();
    windows_of_sorted(2, &ds, 3, &mut out);
    assert_eq!(out, vec![w(2, "2025-02-27", "2025-03-01")]);
    let mut pairs = Vec::new();
    windows_of_sorted(2, &ds, 2, &mut pairs);
    assert_eq!(pairs, vec![w(2, "2025-02-27", "2025-02-28"), w(2, "2025-03-01", "2025-03-02")]);
}

#[test]
fn booking_fixtures_collect_ids_unpaid_and_persons() {
    let b = |id: i64, person: i64, status: &str, paid: Option<&str>| FixtureBooking {
        id,
        person_id: person,
        status: status.to_string(),
        paid_at: paid.map(d),
    };
    let bookings = vec![
        b(1, 100, "Active", None),
        b(2, 101, "Active", Some("2025-01-01")),
        b(3, 100, "Cancelled", None),
        b(4, 102, "Active", None),
    ];
    let mut ids = Vec::new();
    let mut unpaid = Vec::new();
    let mut persons = vec![102];
    collect_booking_fixtures(&bookings, &mut ids, &mut unpaid, &mut persons);
    assert_eq!(ids, vec![1, 2, 3, 4]);
    assert_eq!(unpaid, vec![1, 4]);
    let mut p = persons.clone();
    p.sort();
    assert_eq!(p, vec![100, 101, 102]);
}

#[test]
fn browse_windows_are_thirty_days_from_a_month_start() {
    assert_eq!(view_window_of(2025, 2), Some((d("2025-02-01"), d("2025-03-02"))));
    assert_eq!(view_window_of(2034, 12), Some((d("2034-12-01"), d("2034-12-30"))));
    assert_eq!(view_window_of(2025, 13), None);
    for _ in 0..20 {
        let (from, to) = calendar_view_window().unwrap();
        let f = NaiveDate::from_num_days_from_ce_opt(from.0).unwrap();
        assert_eq!(f.day(), 1);
        assert!((2025..=2034).contains(&f.year()));
        assert_eq!(to.0 - from.0, 29);
    }
}

#[test]
fn pick_draws_from_the_pool() {
    let pool = [3i64, 5, 8];
    for _ in 0..20 {
        assert!(pool.contains(&pick(&pool)));
    }
    assert_eq!(pick(&[42]), 42);
}

#[test]
fn house_samples_are_distinct_and_capped() {
    let houses: Vec<i64> = (1..=120).collect();
    let s = sample_houses(&houses, BOOKING_SAMPLE_HOUSES);
    assert_eq!(s.len(), 50);
    let mut sorted = s.clone();
    sorted.sort();
    sorted.dedup();
    assert_eq!(sorted.len(), 50);
    assert!(s.iter().all(|h| houses.contains(h)));
    assert_eq!(sample_houses(&houses, CALENDAR_SAMPLE_HOUSES).len(), 100);
    let few = vec![7i64, 9];
    let mut all = sample_houses(&few, BOOKING_SAMPLE_HOUSES);
    all.sort();
    assert_eq!(all, vec![7, 9]);
}

#[test]
fn day_numbers_follow_the_gregorian_calendar() {
    assert_eq!(view_window_of(2024, 2).map(|w| w.0), Some(Date(NaiveDate::from_ymd_opt(2024, 2, 1).unwrap().num_days_from_ce())));
    assert_eq!(view_window_of(-4, 3).map(|w| w.0 .0), Some(NaiveDate::from_ymd_opt(-4, 3, 1).unwrap().num_days_from_ce()));
    assert_eq!(view_window_of(262143, 1), None);
    assert_eq!(view_window_of(2025, 0), None);
}
