use chrono::{Datelike, NaiveDate};
use rental_api::booking::{plan_booking, plan_cancel, plan_house_booking, plan_payment};
use rental_api::calendar::validate_date_range;
use rental_api::errors::AppError;
use rental_api::models::{
    BookingStatus, CalendarEntryRow, CalendarStatus, CreateBookingRequest, Date, LockedBooking,
    RecordPaymentRequest,
};

fn d(s: &str) -> Date {
    Date(NaiveDate::parse_from_str(s, "%Y-%m-%d").unwrap().num_days_from_ce())
}

fn row(id: i64, status: CalendarStatus, price: i64) -> CalendarEntryRow {
    CalendarEntryRow { id, status, price }
}

fn req(from: &str, to: &str) -> CreateBookingRequest {
    CreateBookingRequest { house_id: 7, person_id: 9, from: d(from), to: d(to) }
}

fn refusal(r: Result<rental_api::booking::BookingPlan, AppError>) -> String {
    match r {
        Err(AppError::UnprocessableEntity(m)) => m,
        other => panic!("expected UnprocessableEntity, got {other:?}"),
    }
}

#[test]
fn create_should_fail_when_from_is_after_to() {
    assert!(matches!(validate_date_range(d("2024-07-10"), d("2024-07-01")), Err(AppError::UnprocessableEntity(_))));
}

#[test]
fn create_should_accept_same_day_range() {
    assert!(validate_date_range(d("2024-07-01"), d("2024-07-01")).is_ok());
}

#[test]
fn create_should_accept_valid_range() {
    assert!(validate_date_range(d("2024-07-01"), d("2024-07-31")).is_ok());
}

#[test]
fn booking_with_inverted_range_is_refused() {
    let r = plan_booking(&req("2024-07-10", "2024-07-01"), &Vec::new());
    assert_eq!(refusal(r), "'from' must not be after 'to'");
}

#[test]
fn booking_of_a_single_rentable_day_is_planned() {
    let rows = vec![row(1, CalendarStatus::Rentable, 10000)];
    assert!(plan_booking(&req("2024-07-01", "2024-07-01"), &rows).is_ok());
    let rows: Vec<CalendarEntryRow> = (1..=31).map(|i| row(i, CalendarStatus::Rentable, 10000)).collect();
    assert_eq!(plan_booking(&req("2024-07-01", "2024-07-31"), &rows).unwrap().expected_total_price, 310000);
}

#[test]
fn booking_total_is_the_sum_of_the_day_prices() {
    let rows = vec![row(11, CalendarStatus::Rentable, 15000), row(12, CalendarStatus::Rentable, 15000), row(13, CalendarStatus::Rentable, 15000)];
    let plan = plan_booking(&req("2024-06-01", "2024-06-03"), &rows).unwrap();
    assert_eq!(plan.expected_total_price, 45000);
    assert_eq!(plan.from_calendar_id, 11);
    assert_eq!(plan.to_calendar_id, 13);
    assert_eq!((plan.house_id, plan.person_id), (7, 9));
    assert_eq!((plan.rent_from, plan.rent_to), (d("2024-06-01"), d("2024-06-03")));
    let mixed = vec![row(1, CalendarStatus::Rentable, 10000), row(2, CalendarStatus::Rentable, 12050)];
    assert_eq!(plan_booking(&req("2024-06-01", "2024-06-02"), &mixed).unwrap().expected_total_price, 22050);
}

#[test]
fn booking_over_a_day_that_is_not_rentable_is_refused() {
    let rows = vec![
        row(1, CalendarStatus::Rentable, 10000),
        row(2, CalendarStatus::Rentable, 10000),
        row(3, CalendarStatus::Rented, 10000),
        row(4, CalendarStatus::Rentable, 10000),
        row(5, CalendarStatus::Rentable, 10000),
    ];
    assert_eq!(refusal(plan_booking(&req("2024-07-01", "2024-07-05"), &rows)), "all days in range must be in status 'Rentable'");
    let rows = vec![row(1, CalendarStatus::NotRentable, 10000)];
    assert_eq!(refusal(plan_booking(&req("2024-07-01", "2024-07-01"), &rows)), "all days in range must be in status 'Rentable'");
}

#[test]
fn booking_over_days_without_entries_is_refused() {
    let rows = vec![row(1, CalendarStatus::Rentable, 10000), row(3, CalendarStatus::Rentable, 10000), row(5, CalendarStatus::Rentable, 10000)];
    assert_eq!(refusal(plan_booking(&req("2024-08-01", "2024-08-05"), &rows)), "not all days in the requested range have calendar entries");
}

fn locked(status: BookingStatus) -> LockedBooking {
    LockedBooking { id: 21, status, house_id: 7, from_date: d("2024-09-01"), to_date: d("2024-09-03") }
}

#[test]
fn cancel_releases_the_booked_days() {
    let p = plan_cancel(&locked(BookingStatus::Active)).unwrap();
    assert_eq!(p.booking_id, 21);
    assert_eq!(p.house_id, 7);
    assert_eq!((p.release_from, p.release_to), (d("2024-09-01"), d("2024-09-03")));
}

#[test]
fn second_cancel_is_refused() {
    match plan_cancel(&locked(BookingStatus::Cancelled)) {
        Err(AppError::UnprocessableEntity(m)) => assert_eq!(m, "booking is already cancelled"),
        other => panic!("unexpected {other:?}"),
    }
}

#[test]
fn payment_is_stored_on_an_active_booking() {
    let pay = RecordPaymentRequest { paid_at: d("2024-10-25"), total_paid: 20000 };
    let p = plan_payment(&locked(BookingStatus::Active), &pay).unwrap();
    assert_eq!(p.booking_id, 21);
    assert_eq!(p.paid_at, d("2024-10-25"));
    assert_eq!(p.total_paid, 20000);
}

#[test]
fn payment_on_a_cancelled_booking_is_refused() {
    let pay = RecordPaymentRequest { paid_at: d("2024-10-25"), total_paid: 20000 };
    match plan_payment(&locked(BookingStatus::Cancelled), &pay) {
        Err(AppError::UnprocessableEntity(m)) => assert_eq!(m, "cannot record payment for a cancelled booking"),
        other => panic!("unexpected {other:?}"),
    }
}

#[test]
fn cancelling_a_planned_booking_releases_exactly_its_days() {
    let rows = vec![row(1, CalendarStatus::Rentable, 10000), row(2, CalendarStatus::Rentable, 10000), row(3, CalendarStatus::Rentable, 10000)];
    let plan = plan_booking(&req("2024-09-01", "2024-09-03"), &rows).unwrap();
    let lock = LockedBooking { id: 5, status: BookingStatus::Active, house_id: plan.house_id, from_date: plan.from, to_date: plan.to };
    let c = plan_cancel(&lock).unwrap();
    assert_eq!((c.house_id, c.release_from, c.release_to), (plan.house_id, plan.rent_from, plan.rent_to));
}

#[test]
fn booking_an_unknown_house_is_a_conflict() {
    match plan_house_booking(&req("2024-06-01", "2024-06-03"), false, &Vec::new()) {
        Err(AppError::Conflict(m)) => assert_eq!(m, "house 7 not found"),
        other => panic!("expected Conflict, got {other:?}"),
    }
    assert_eq!(
        refusal(plan_house_booking(&req("2024-06-03", "2024-06-01"), false, &Vec::new())),
        "'from' must not be after 'to'"
    );
    assert_eq!(
        refusal(plan_house_booking(&req("2024-06-01", "2024-06-03"), true, &Vec::new())),
        "not all days in the requested range have calendar entries"
    );
    let rows = vec![row(1, CalendarStatus::Rentable, 15000), row(2, CalendarStatus::Rentable, 15000), row(3, CalendarStatus::Rentable, 15000)];
    assert_eq!(plan_house_booking(&req("2024-06-01", "2024-06-03"), true, &rows).unwrap().expected_total_price, 45000);
}
