//! What the service's statements do to the stored calendar of a house, and
//! the laws that tie the booking and calendar rules to it.
//!
//! The calendar of one house is a map from day numbers to calendar rows.
//! Each spec function below states the effect of one statement the service
//! runs with the values of a plan (`BookingPlan`, `CancelPlan`) or of a
//! request.

use vstd::prelude::*;

use crate::booking::{
    all_rentable, booking_refusal, cancel_refused, day_count, payment_refused,
};
use crate::calendar::days_between;
use crate::models::{BookingStatus, CalendarEntryRow, CalendarStatus, Date, LockedBooking};

verus! {

/// The rows of the given days that exist, in the order of the days: what the
/// locking read of a booking returns.
pub open spec fn rows_of(cal: Map<int, CalendarEntryRow>, days: Seq<Date>) -> Seq<
    CalendarEntryRow,
>
    decreases days.len(),
{
    if days.len() == 0 {
        Seq::empty()
    } else {
        let rest = rows_of(cal, days.drop_last());
        if cal.dom().contains(days.last().0 as int) {
            rest.push(cal[days.last().0 as int])
        } else {
            rest
        }
    }
}

/// The existing rows of `from..=to`, in date order.
pub open spec fn rows_in(cal: Map<int, CalendarEntryRow>, from: Date, to: Date) -> Seq<
    CalendarEntryRow,
> {
    rows_of(cal, days_between(from, to))
}

/// The calendar after the existing days of `from..=to` are set to `status`.
pub open spec fn with_status(
    cal: Map<int, CalendarEntryRow>,
    from: Date,
    to: Date,
    status: CalendarStatus,
) -> Map<int, CalendarEntryRow> {
    Map::new(
        |d: int| cal.dom().contains(d),
        |d: int|
            if from.0 <= d <= to.0 {
                CalendarEntryRow { id: cal[d].id, status: status, price: cal[d].price }
            } else {
                cal[d]
            },
    )
}

/// The days of the given list that have no row yet, in the list's order:
/// the days a calendar creation inserts and answers with.
pub open spec fn missing_days(cal: Map<int, CalendarEntryRow>, days: Seq<Date>) -> Seq<Date>
    decreases days.len(),
{
    if days.len() == 0 {
        Seq::empty()
    } else {
        let rest = missing_days(cal, days.drop_last());
        if cal.dom().contains(days.last().0 as int) {
            rest
        } else {
            rest.push(days.last())
        }
    }
}

/// The calendar after a creation of the days `from..=to` with the given
/// status and price: days that already have a row keep it, the others get a
/// new row with the id the database assigns (`new_id`).
pub open spec fn with_created(
    cal: Map<int, CalendarEntryRow>,
    from: Date,
    to: Date,
    status: CalendarStatus,
    price: i64,
    new_id: spec_fn(int) -> i64,
) -> Map<int, CalendarEntryRow> {
    Map::new(
        |d: int| cal.dom().contains(d) || from.0 <= d <= to.0,
        |d: int|
            if cal.dom().contains(d) {
                cal[d]
            } else {
                CalendarEntryRow { id: new_id(d), status: status, price: price }
            },
    )
}

proof fn lemma_rows_of_len(cal: Map<int, CalendarEntryRow>, days: Seq<Date>)
    ensures
        rows_of(cal, days).len() <= days.len(),
    decreases days.len(),
{
    if days.len() > 0 {
        lemma_rows_of_len(cal, days.drop_last());
    }
}

proof fn lemma_rows_of_full(cal: Map<int, CalendarEntryRow>, days: Seq<Date>)
    requires
        rows_of(cal, days).len() == days.len(),
    ensures
        forall|i: int|
            0 <= i < days.len() ==> cal.dom().contains(#[trigger] days[i].0 as int)
                && rows_of(cal, days)[i] == cal[days[i].0 as int],
    decreases days.len(),
{
    if days.len() > 0 {
        let rest = days.drop_last();
        lemma_rows_of_len(cal, rest);
        assert(cal.dom().contains(days.last().0 as int));
        lemma_rows_of_full(cal, rest);
        assert forall|i: int| 0 <= i < days.len() implies cal.dom().contains(
            #[trigger] days[i].0 as int,
        ) && rows_of(cal, days)[i] == cal[days[i].0 as int] by {
            if i < days.len() - 1 {
                assert(days[i] == rest[i]);
            }
        }
    }
}

proof fn lemma_accepted_day_rentable(cal: Map<int, CalendarEntryRow>, from: Date, to: Date, d: int)
    requires
        booking_refusal(from, to, rows_in(cal, from, to)) is None,
        from.0 <= d <= to.0,
    ensures
        cal.dom().contains(d),
        cal[d].status == CalendarStatus::Rentable,
{
    let days = days_between(from, to);
    let rows = rows_in(cal, from, to);
    assert(days.len() == day_count(from, to));
    lemma_rows_of_full(cal, days);
    let i = d - from.0;
    assert(0 <= i < days.len());
    assert(days[i].0 == d);
    assert(cal.dom().contains(days[i].0 as int));
    assert(rows[i] == cal[days[i].0 as int]);
    assert(all_rentable(rows));
    assert(rows[i].status == CalendarStatus::Rentable);
}

proof fn lemma_accepted_days_rentable(cal: Map<int, CalendarEntryRow>, from: Date, to: Date)
    requires
        booking_refusal(from, to, rows_in(cal, from, to)) is None,
    ensures
        forall|d: int|
            #![trigger cal.dom().contains(d)]
            #![trigger cal[d]]
            from.0 <= d <= to.0 ==> cal.dom().contains(d) && cal[d].status
                == CalendarStatus::Rentable,
{
    assert forall|d: int|
        #![trigger cal.dom().contains(d)]
        #![trigger cal[d]]
        from.0 <= d <= to.0 implies cal.dom().contains(d) && cal[d].status
            == CalendarStatus::Rentable by {
        lemma_accepted_day_rentable(cal, from, to, d);
    }
}

/// A booking that the rules accept leaves every day of its range present
/// and `Rented` once its days are marked.
pub proof fn law_booking_rents_every_day(cal: Map<int, CalendarEntryRow>, from: Date, to: Date)
    requires
        booking_refusal(from, to, rows_in(cal, from, to)) is None,
    ensures
        forall|d: int|
            from.0 <= d <= to.0 ==> #[trigger] with_status(
                cal,
                from,
                to,
                CalendarStatus::Rented,
            ).dom().contains(d) && with_status(cal, from, to, CalendarStatus::Rented)[d].status
                == CalendarStatus::Rented,
{
    lemma_accepted_days_rentable(cal, from, to);
}

/// Cancelling a booking that the rules accepted gives back the calendar it
/// was made on: releasing its days undoes marking them.
pub proof fn law_cancel_restores_calendar(cal: Map<int, CalendarEntryRow>, from: Date, to: Date)
    requires
        booking_refusal(from, to, rows_in(cal, from, to)) is None,
    ensures
        with_status(
            with_status(cal, from, to, CalendarStatus::Rented),
            from,
            to,
            CalendarStatus::Rentable,
        ) == cal,
{
    lemma_accepted_days_rentable(cal, from, to);
    let after = with_status(
        with_status(cal, from, to, CalendarStatus::Rented),
        from,
        to,
        CalendarStatus::Rentable,
    );
    assert(after =~= cal);
}

/// A booking of days that are already booked is refused: once a booking's
/// days are marked, no booking of an overlapping range is accepted.
pub proof fn law_booked_days_refuse_overlap(
    cal: Map<int, CalendarEntryRow>,
    from: Date,
    to: Date,
    other_from: Date,
    other_to: Date,
)
    requires
        booking_refusal(from, to, rows_in(cal, from, to)) is None,
        other_from.0 <= to.0,
        from.0 <= other_to.0,
        other_from.0 <= other_to.0,
    ensures
        booking_refusal(
            other_from,
            other_to,
            rows_in(with_status(cal, from, to, CalendarStatus::Rented), other_from, other_to),
        ) is Some,
{
    let booked = with_status(cal, from, to, CalendarStatus::Rented);
    lemma_accepted_days_rentable(cal, from, to);
    let rows = rows_in(booked, other_from, other_to);
    if rows.len() == day_count(other_from, other_to) {
        let days = days_between(other_from, other_to);
        lemma_rows_of_full(booked, days);
        let d = if from.0 > other_from.0 {
            from.0 as int
        } else {
            other_from.0 as int
        };
        let i = d - other_from.0;
        assert(days[i].0 == d);
        assert(rows[i].status == CalendarStatus::Rented);
    }
}

proof fn lemma_missing_days_after_creation(
    cal: Map<int, CalendarEntryRow>,
    from: Date,
    to: Date,
    days: Seq<Date>,
    status: CalendarStatus,
    price: i64,
    new_id: spec_fn(int) -> i64,
)
    requires
        forall|i: int| 0 <= i < days.len() ==> from.0 <= #[trigger] days[i].0 <= to.0,
    ensures
        missing_days(with_created(cal, from, to, status, price, new_id), days).len() == 0,
    decreases days.len(),
{
    if days.len() > 0 {
        let rest = days.drop_last();
        assert forall|i: int| 0 <= i < rest.len() implies from.0 <= #[trigger] rest[i].0
            <= to.0 by {
            assert(rest[i] == days[i]);
        }
        lemma_missing_days_after_creation(cal, from, to, rest, status, price, new_id);
        assert(from.0 <= days[days.len() - 1].0 <= to.0);
    }
}

/// Creating the days of a range inserts no day twice: after a creation of
/// `from..=to`, creating the same range again finds no missing day.
pub proof fn law_creation_is_idempotent(
    cal: Map<int, CalendarEntryRow>,
    from: Date,
    to: Date,
    status: CalendarStatus,
    price: i64,
    new_id: spec_fn(int) -> i64,
)
    ensures
        missing_days(
            with_created(cal, from, to, status, price, new_id),
            days_between(from, to),
        ).len() == 0,
{
    let days = days_between(from, to);
    assert forall|i: int| 0 <= i < days.len() implies from.0 <= #[trigger] days[i].0 <= to.0 by {}
    lemma_missing_days_after_creation(cal, from, to, days, status, price, new_id);
}

/// A stored booking, as the deletion rule reads it.
#[derive(Clone, Copy, Debug)]
pub struct StoredBooking {
    pub house_id: i64,
    pub from: Date,
    pub to: Date,
    pub status: BookingStatus,
}

/// The number of days of `lo..=hi` that have a row.
pub open spec fn present_days(cal: Map<int, CalendarEntryRow>, lo: int, hi: int) -> nat
    decreases hi - lo + 1,
{
    if lo > hi {
        0
    } else {
        present_days(cal, lo, hi - 1) + if cal.dom().contains(hi) {
            1nat
        } else {
            0nat
        }
    }
}

/// The number of (day, booking) pairs where a day of `from..=to` of the
/// house's calendar lies within a booking of that house that is not
/// cancelled: what the deletion rule counts.
pub open spec fn covered_days(
    cal: Map<int, CalendarEntryRow>,
    house_id: i64,
    bookings: Seq<StoredBooking>,
    from: Date,
    to: Date,
) -> nat
    decreases bookings.len(),
{
    if bookings.len() == 0 {
        0
    } else {
        let b = bookings.last();
        let here: nat = if b.house_id == house_id && b.status != BookingStatus::Cancelled {
            present_days(
                cal,
                if from.0 > b.from.0 {
                    from.0 as int
                } else {
                    b.from.0 as int
                },
                if to.0 < b.to.0 {
                    to.0 as int
                } else {
                    b.to.0 as int
                },
            )
        } else {
            0
        };
        covered_days(cal, house_id, bookings.drop_last(), from, to) + here
    }
}

/// Whether booking `b` of the house is not cancelled and covers a stored day
/// `d` of `from..=to`.
pub open spec fn blocks(
    cal: Map<int, CalendarEntryRow>,
    house_id: i64,
    b: StoredBooking,
    from: Date,
    to: Date,
    d: int,
) -> bool {
    &&& b.house_id == house_id
    &&& b.status != BookingStatus::Cancelled
    &&& cal.dom().contains(d)
    &&& from.0 <= d <= to.0
    &&& b.from.0 <= d <= b.to.0
}

proof fn lemma_present_days(cal: Map<int, CalendarEntryRow>, lo: int, hi: int)
    ensures
        present_days(cal, lo, hi) > 0 <==> exists|d: int| lo <= d <= hi && cal.dom().contains(d),
    decreases hi - lo + 1,
{
    if lo <= hi {
        lemma_present_days(cal, lo, hi - 1);
        if present_days(cal, lo, hi) > 0 {
            if !cal.dom().contains(hi) {
                let d = choose|d: int| lo <= d <= hi - 1 && cal.dom().contains(d);
                assert(lo <= d <= hi && cal.dom().contains(d));
            } else {
                assert(lo <= hi <= hi && cal.dom().contains(hi));
            }
        } else {
            assert forall|d: int| lo <= d <= hi implies !cal.dom().contains(d) by {
                if d < hi {
                    if cal.dom().contains(d) {
                        assert(lo <= d <= hi - 1 && cal.dom().contains(d));
                    }
                }
            }
        }
    }
}

/// A deletion of `from..=to` is refused (`check_delete` of the count) exactly
/// when some booking of the house that is not cancelled covers a stored day
/// of that range; cancelled bookings never block a deletion.
pub proof fn law_delete_blocked_iff_booked(
    cal: Map<int, CalendarEntryRow>,
    house_id: i64,
    bookings: Seq<StoredBooking>,
    from: Date,
    to: Date,
)
    ensures
        covered_days(cal, house_id, bookings, from, to) > 0 <==> exists|i: int, d: int|
            0 <= i < bookings.len() && #[trigger] blocks(cal, house_id, bookings[i], from, to, d),
    decreases bookings.len(),
{
    if bookings.len() > 0 {
        let rest = bookings.drop_last();
        let b = bookings.last();
        law_delete_blocked_iff_booked(cal, house_id, rest, from, to);
        let lo = if from.0 > b.from.0 {
            from.0 as int
        } else {
            b.from.0 as int
        };
        let hi = if to.0 < b.to.0 {
            to.0 as int
        } else {
            b.to.0 as int
        };
        lemma_present_days(cal, lo, hi);
        if covered_days(cal, house_id, bookings, from, to) > 0 {
            if covered_days(cal, house_id, rest, from, to) > 0 {
                let (i, d) = choose|i: int, d: int|
                    0 <= i < rest.len() && #[trigger] blocks(cal, house_id, rest[i], from, to, d);
                assert(bookings[i] == rest[i]);
                assert(0 <= i < bookings.len() && blocks(cal, house_id, bookings[i], from, to, d));
            } else {
                let d = choose|d: int| lo <= d <= hi && cal.dom().contains(d);
                let i = bookings.len() - 1;
                assert(blocks(cal, house_id, bookings[i], from, to, d));
            }
        } else {
            assert forall|i: int, d: int| 0 <= i < bookings.len() implies !#[trigger] blocks(
                cal,
                house_id,
                bookings[i],
                from,
                to,
                d,
            ) by {
                if i < bookings.len() - 1 {
                    assert(bookings[i] == rest[i]);
                    if blocks(cal, house_id, rest[i], from, to, d) {
                        assert(0 <= i < rest.len() && blocks(cal, house_id, rest[i], from, to, d));
                    }
                } else {
                    if blocks(cal, house_id, b, from, to, d) {
                        assert(lo <= d <= hi && cal.dom().contains(d));
                    }
                }
            }
        }
    }
}

/// The booking row after a cancellation is written: cancelled, with its
/// payment cleared; house and days unchanged.
pub open spec fn after_cancel(locked: LockedBooking) -> LockedBooking {
    LockedBooking { status: BookingStatus::Cancelled, ..locked }
}

/// A booking is cancelled at most once, and a cancelled booking takes no
/// payment: once a cancellation is written, cancelling again and paying are
/// both refused.
pub proof fn law_cancelled_booking_is_final(locked: LockedBooking)
    ensures
        cancel_refused(after_cancel(locked)),
        payment_refused(after_cancel(locked)),
        after_cancel(locked).house_id == locked.house_id,
        after_cancel(locked).from_date == locked.from_date,
        after_cancel(locked).to_date == locked.to_date,
{
}

} // verus!
