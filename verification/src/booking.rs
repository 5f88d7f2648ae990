//! The booking rules: when a stay can be booked and at what price, when a
//! booking can be cancelled or paid, and what each accepted request writes.
//!
//! A request that passes its rule yields a plan: the values of the
//! statements that carry it out. What those statements do to the stored
//! calendar is stated by the spec functions at the end of this file, and
//! the laws there are proved over them.

use vstd::prelude::*;

use crate::calendar::{
    days_between, inverted_range_text, unprocessable, unprocessable_error, validate_date_range,
};
use crate::errors::{not_found_message, not_found_text, AppError};
use crate::models::{
    BookingStatus, CalendarEntryRow, CalendarStatus, CreateBookingRequest, Date, LockedBooking,
    RecordPaymentRequest,
};

verus! {

/// Message of a booking whose range has days without a calendar entry.
pub open spec fn missing_days_text() -> Seq<char> {
    "not all days in the requested range have calendar entries"@
}

/// Message of a booking whose range has a day that is not rentable.
pub open spec fn unrentable_day_text() -> Seq<char> {
    "all days in range must be in status 'Rentable'"@
}

/// Message of a second cancellation.
pub open spec fn already_cancelled_text() -> Seq<char> {
    "booking is already cancelled"@
}

/// Message of a payment for a cancelled booking.
pub open spec fn cancelled_payment_text() -> Seq<char> {
    "cannot record payment for a cancelled booking"@
}

/// The number of days of `from..=to`.
pub open spec fn day_count(from: Date, to: Date) -> int {
    to.0 - from.0 + 1
}

/// The sum of the prices of calendar rows, in hundredths.
pub open spec fn price_sum(rows: Seq<CalendarEntryRow>) -> int
    decreases rows.len(),
{
    if rows.len() == 0 {
        0
    } else {
        price_sum(rows.drop_last()) + rows.last().price
    }
}

/// Whether every row is rentable.
pub open spec fn all_rentable(rows: Seq<CalendarEntryRow>) -> bool {
    forall|i: int| 0 <= i < rows.len() ==> #[trigger] rows[i].status == CalendarStatus::Rentable
}

/// Why a booking of `from..=to` over the calendar rows found for that range
/// is refused, if it is.
pub open spec fn booking_refusal(from: Date, to: Date, rows: Seq<CalendarEntryRow>) -> Option<
    Seq<char>,
> {
    if from.0 > to.0 {
        Some(inverted_range_text())
    } else if rows.len() != day_count(from, to) {
        Some(missing_days_text())
    } else if !all_rentable(rows) {
        Some(unrentable_day_text())
    } else {
        None
    }
}

/// The values a booking is written with: the booking row (its house,
/// person, days and first and last calendar rows) and the days it turns to
/// `Rented`, `rent_from..=rent_to` of `house_id`.
#[derive(Clone, Copy, Debug)]
pub struct BookingPlan {
    pub house_id: i64,
    pub person_id: i64,
    pub from: Date,
    pub to: Date,
    pub from_calendar_id: i64,
    pub to_calendar_id: i64,
    pub expected_total_price: i128,
    pub rent_from: Date,
    pub rent_to: Date,
}

/// The plan of an accepted booking: the request's house, person and days,
/// the first and last calendar rows, the sum of the day prices, and the
/// request's days to rent.
pub open spec fn plans_booking(p: BookingPlan, req: CreateBookingRequest, rows: Seq<CalendarEntryRow>) -> bool {
    &&& p.house_id == req.house_id
    &&& p.person_id == req.person_id
    &&& p.from == req.from
    &&& p.to == req.to
    &&& p.from_calendar_id == rows[0].id
    &&& p.to_calendar_id == rows.last().id
    &&& p.expected_total_price == price_sum(rows)
    &&& p.rent_from == req.from
    &&& p.rent_to == req.to
}

proof fn lemma_price_sum_bound(rows: Seq<CalendarEntryRow>)
    ensures
        rows.len() * i64::MIN <= price_sum(rows) <= rows.len() * i64::MAX,
    decreases rows.len(),
{
    if rows.len() > 0 {
        lemma_price_sum_bound(rows.drop_last());
    }
}

/// Decides a booking of `req.from..=req.to` given the calendar rows of that
/// range in date order: the range must not be inverted, every day must have
/// a row, and every row must be rentable. The price is the sum of the
/// prices of the rows.
pub fn plan_booking(req: &CreateBookingRequest, rows: &Vec<CalendarEntryRow>) -> (r: Result<
    BookingPlan,
    AppError,
>)
    ensures
        r is Ok <==> booking_refusal(req.from, req.to, rows@) is None,
        r matches Err(e) ==> unprocessable(e, booking_refusal(req.from, req.to, rows@)->0),
        r matches Ok(p) ==> plans_booking(p, *req, rows@),
{
    validate_date_range(req.from, req.to)?;
    let expected_days: i64 = req.to.0 as i64 - req.from.0 as i64 + 1;
    assert(req.from.0 <= req.to.0);
    assert(expected_days == day_count(req.from, req.to));
    if rows.len() as u64 != expected_days as u64 {
        assert(rows@.len() != day_count(req.from, req.to));
        return Err(unprocessable_error("not all days in the requested range have calendar entries"));
    }
    let mut i: usize = 0;
    let mut total: i128 = 0;
    while i < rows.len()
        invariant
            i <= rows.len(),
            req.from.0 <= req.to.0,
            rows@.len() == day_count(req.from, req.to),
            forall|j: int| 0 <= j < i ==> #[trigger] rows@[j].status == CalendarStatus::Rentable,
            total == price_sum(rows@.subrange(0, i as int)),
        decreases rows.len() - i,
    {
        if rows[i].status != CalendarStatus::Rentable {
            assert(!all_rentable(rows@)) by {
                assert(rows@[i as int].status != CalendarStatus::Rentable);
            }
            return Err(unprocessable_error("all days in range must be in status 'Rentable'"));
        }
        proof {
            let s = rows@.subrange(0, i as int + 1);
            assert(s.drop_last() =~= rows@.subrange(0, i as int));
            lemma_price_sum_bound(s);
            assert(i + 1 <= usize::MAX);
        }
        total = total + rows[i].price as i128;
        i = i + 1;
    }
    assert(rows@.subrange(0, rows.len() as int) =~= rows@);
    let last = rows.len() - 1;
    Ok(
        BookingPlan {
            house_id: req.house_id,
            person_id: req.person_id,
            from: req.from,
            to: req.to,
            from_calendar_id: rows[0].id,
            to_calendar_id: rows[last].id,
            expected_total_price: total,
            rent_from: req.from,
            rent_to: req.to,
        },
    )
}

/// Message of a booking of a house that does not exist.
pub open spec fn unknown_house_text(house_id: int) -> Seq<char> {
    not_found_text("house"@, house_id)
}

/// Decides a booking given whether its house exists and the calendar rows
/// of its range: an inverted range is refused first; a house that does not
/// exist is a conflict (like a person that does not exist); otherwise the
/// booking rule of `plan_booking` decides.
pub fn plan_house_booking(req: &CreateBookingRequest, house_known: bool, rows: &Vec<CalendarEntryRow>) -> (r:
    Result<BookingPlan, AppError>)
    ensures
        r is Ok <==> house_known && booking_refusal(req.from, req.to, rows@) is None,
        req.from.0 > req.to.0 ==> (r matches Err(e) && unprocessable(e, inverted_range_text())),
        req.from.0 <= req.to.0 && !house_known ==> (r matches Err(e) && e matches AppError::Conflict(m)
            && m@ == unknown_house_text(req.house_id as int)),
        house_known ==> (r matches Err(e) ==> unprocessable(
            e,
            booking_refusal(req.from, req.to, rows@)->0,
        )),
        r matches Ok(p) ==> plans_booking(p, *req, rows@),
{
    validate_date_range(req.from, req.to)?;
    if !house_known {
        return Err(AppError::Conflict(not_found_message("house", req.house_id)));
    }
    plan_booking(req, rows)
}

/// The values a cancellation is written with: the booking turns to
/// `Cancelled` with its payment cleared, and the days
/// `release_from..=release_to` of `house_id` turn back to `Rentable`.
#[derive(Clone, Copy, Debug)]
pub struct CancelPlan {
    pub booking_id: i64,
    pub house_id: i64,
    pub release_from: Date,
    pub release_to: Date,
}

/// Whether the cancellation of a locked booking is refused: a cancelled
/// booking cannot be cancelled again.
pub open spec fn cancel_refused(locked: LockedBooking) -> bool {
    locked.status == BookingStatus::Cancelled
}

/// Whether the payment of a locked booking is refused: a cancelled booking
/// takes no payment.
pub open spec fn payment_refused(locked: LockedBooking) -> bool {
    locked.status == BookingStatus::Cancelled
}

/// Decides the cancellation of a locked booking: a cancelled booking cannot
/// be cancelled again; otherwise its days are released.
pub fn plan_cancel(locked: &LockedBooking) -> (r: Result<CancelPlan, AppError>)
    ensures
        r is Err <==> cancel_refused(*locked),
        r matches Err(e) ==> unprocessable(e, already_cancelled_text()),
        r matches Ok(p) ==> p == (CancelPlan {
            booking_id: locked.id,
            house_id: locked.house_id,
            release_from: locked.from_date,
            release_to: locked.to_date,
        }),
{
    if locked.status == BookingStatus::Cancelled {
        return Err(unprocessable_error("booking is already cancelled"));
    }
    Ok(
        CancelPlan {
            booking_id: locked.id,
            house_id: locked.house_id,
            release_from: locked.from_date,
            release_to: locked.to_date,
        },
    )
}

/// The values a payment is written with.
#[derive(Clone, Copy, Debug)]
pub struct PaymentPlan {
    pub booking_id: i64,
    pub paid_at: Date,
    pub total_paid: i64,
}

/// Decides the payment of a locked booking: a cancelled booking takes no
/// payment; otherwise the payment date and amount are stored.
pub fn plan_payment(locked: &LockedBooking, req: &RecordPaymentRequest) -> (r: Result<
    PaymentPlan,
    AppError,
>)
    ensures
        r is Err <==> payment_refused(*locked),
        r matches Err(e) ==> unprocessable(e, cancelled_payment_text()),
        r matches Ok(p) ==> p == (PaymentPlan {
            booking_id: locked.id,
            paid_at: req.paid_at,
            total_paid: req.total_paid,
        }),
{
    if locked.status == BookingStatus::Cancelled {
        return Err(unprocessable_error("cannot record payment for a cancelled booking"));
    }
    Ok(PaymentPlan { booking_id: locked.id, paid_at: req.paid_at, total_paid: req.total_paid })
}

} // verus!
