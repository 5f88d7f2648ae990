use chrono::{Datelike, NaiveDate};
use rental_api::calendar::{
    entry_not_found,
    check_delete, days_in_range, sort_by_date, validate_create, validate_create_status,
    validate_date_range,
};
use rental_api::errors::AppError;
use rental_api::models::{Amount, CalendarEntry, CalendarStatus, CreateCalendarRequest, Date};

fn d(s: &str) -> Date {
    Date(NaiveDate::parse_from_str(s, "%Y-%m-%d").unwrap().num_days_from_ce())
}

#[test]
fn create_rejects_rented_status() {
    assert!(matches!(validate_create_status(CalendarStatus::Rented), Err(AppError::UnprocessableEntity(_))));
}

#[test]
fn create_accepts_valid_statuses() {
    assert!(validate_create_status(CalendarStatus::Rentable).is_ok());
    assert!(validate_create_status(CalendarStatus::NotRentable).is_ok());
}

#[test]
fn date_range_rejects_inverted() {
    assert!(matches!(validate_date_range(d("2024-07-10"), d("2024-07-01")), Err(AppError::UnprocessableEntity(_))));
}

#[test]
fn date_range_accepts_same_day() {
    assert!(validate_date_range(d("2024-07-01"), d("2024-07-01")).is_ok());
}

#[test]
fn date_range_accepts_valid_range() {
    assert!(validate_date_range(d("2024-07-01"), d("2024-07-31")).is_ok());
}

#[test]
fn rented_status_message_is_stated() {
    match validate_create_status(CalendarStatus::Rented) {
        Err(AppError::UnprocessableEntity(m)) => {
            assert_eq!(m, "status 'Rented' cannot be set via calendar endpoints")
        }
        other => panic!("unexpected {other:?}"),
    }
}

#[test]
fn inverted_range_message_is_stated() {
    match validate_date_range(d("2024-07-10"), d("2024-07-01")) {
        Err(AppError::UnprocessableEntity(m)) => assert_eq!(m, "'from' must not be after 'to'"),
        other => panic!("unexpected {other:?}"),
    }
}

#[test]
fn create_checks_status_before_range() {
    let req = CreateCalendarRequest { from: d("2024-07-10"), to: d("2024-07-01"), status: CalendarStatus::Rented, price: Amount { cents: 100, negative: false } };
    match validate_create(&req) {
        Err(AppError::UnprocessableEntity(m)) => {
            assert_eq!(m, "status 'Rented' cannot be set via calendar endpoints")
        }
        other => panic!("unexpected {other:?}"),
    }
    let req = CreateCalendarRequest { from: d("2024-07-10"), to: d("2024-07-01"), status: CalendarStatus::Rentable, price: Amount { cents: 100, negative: false } };
    match validate_create(&req) {
        Err(AppError::UnprocessableEntity(m)) => assert_eq!(m, "'from' must not be after 'to'"),
        other => panic!("unexpected {other:?}"),
    }
    let req = CreateCalendarRequest { from: d("2024-07-01"), to: d("2024-07-05"), status: CalendarStatus::NotRentable, price: Amount { cents: 0, negative: false } };
    assert!(validate_create(&req).is_ok());
}

#[test]
fn days_in_range_lists_each_day_once() {
    let days = days_in_range(d("2024-07-01"), d("2024-07-05"));
    assert_eq!(days, vec![d("2024-07-01"), d("2024-07-02"), d("2024-07-03"), d("2024-07-04"), d("2024-07-05")]);
    assert_eq!(days_in_range(d("2024-07-01"), d("2024-07-01")), vec![d("2024-07-01")]);
    assert!(days_in_range(d("2024-07-02"), d("2024-07-01")).is_empty());
    let leap = days_in_range(d("2024-02-28"), d("2024-03-01"));
    assert_eq!(leap.len(), 3);
}

#[test]
fn delete_is_refused_only_over_booked_days() {
    match check_delete(Some(3)) {
        Err(AppError::Conflict(m)) => {
            assert_eq!(m, "one or more calendar entries are referenced by active bookings")
        }
        other => panic!("unexpected {other:?}"),
    }
    assert!(check_delete(Some(0)).is_ok());
    assert!(check_delete(None).is_ok());
}

#[test]
fn sort_by_date_orders_and_keeps_entries() {
    let e = |id: i64, day: &str| CalendarEntry { id, date: d(day), status: CalendarStatus::Rentable, price: 100 };
    let sorted = sort_by_date(vec![e(3, "2024-07-03"), e(1, "2024-07-01"), e(4, "2024-07-03"), e(2, "2024-07-02")]);
    let ids: Vec<i64> = sorted.iter().map(|x| x.id).collect();
    assert_eq!(ids, vec![1, 2, 3, 4]);
    assert!(sort_by_date(Vec::new()).is_empty());
}

#[test]
fn missing_entry_names_entry_and_house() {
    assert!(matches!(entry_not_found(31, 4), AppError::NotFound(m) if m == "calendar entry 31 not found for house 4"));
}
