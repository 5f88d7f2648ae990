//! The rules of a house's calendar: which requests are accepted, which days
//! a creation covers, when a deletion is refused, and the date order of the
//! entries a price update answers with.

use vstd::prelude::*;
use vstd::seq_lib::lemma_multiset_commutative;

use crate::errors::AppError;
use crate::models::{CalendarEntry, CalendarStatus, CreateCalendarRequest, Date};
use crate::text::{chars_of, decimal_of, push_decimal, push_str, string_of};

verus! {

broadcast use vstd::seq_lib::group_to_multiset_ensures;

/// Message of a calendar creation that asks for `Rented`.
pub open spec fn rented_refused_text() -> Seq<char> {
    "status 'Rented' cannot be set via calendar endpoints"@
}

/// Message of a request whose `from` lies after its `to`.
pub open spec fn inverted_range_text() -> Seq<char> {
    "'from' must not be after 'to'"@
}

/// Message of a deletion that would remove booked days.
pub open spec fn booked_days_text() -> Seq<char> {
    "one or more calendar entries are referenced by active bookings"@
}

/// The error of a broken business rule with the given message.
pub open spec fn unprocessable(e: AppError, text: Seq<char>) -> bool {
    e matches AppError::UnprocessableEntity(m) && m@ == text
}

/// A broken business rule with the given message.
pub fn unprocessable_error(text: &str) -> (e: AppError)
    ensures
        unprocessable(e, text@),
{
    let v = chars_of(text);
    AppError::UnprocessableEntity(string_of(&v))
}

/// `Rented` is set by bookings only: a calendar request may not ask for it.
pub fn validate_create_status(status: CalendarStatus) -> (r: Result<(), AppError>)
    ensures
        r is Err <==> status == CalendarStatus::Rented,
        r matches Err(e) ==> unprocessable(e, rented_refused_text()),
{
    if status == CalendarStatus::Rented {
        return Err(unprocessable_error("status 'Rented' cannot be set via calendar endpoints"));
    }
    Ok(())
}

/// A day range `from..=to` must not be inverted; a single day is a range.
pub fn validate_date_range(from: Date, to: Date) -> (r: Result<(), AppError>)
    ensures
        r is Err <==> from.0 > to.0,
        r matches Err(e) ==> unprocessable(e, inverted_range_text()),
{
    if from.0 > to.0 {
        return Err(unprocessable_error("'from' must not be after 'to'"));
    }
    Ok(())
}

/// Checks a calendar creation: first its status, then its range.
pub fn validate_create(req: &CreateCalendarRequest) -> (r: Result<(), AppError>)
    ensures
        r is Err <==> (req.status == CalendarStatus::Rented || req.from.0 > req.to.0),
        req.status == CalendarStatus::Rented ==> (r matches Err(e) && unprocessable(
            e,
            rented_refused_text(),
        )),
        req.status != CalendarStatus::Rented && req.from.0 > req.to.0 ==> (r matches Err(e)
            && unprocessable(e, inverted_range_text())),
{
    validate_create_status(req.status)?;
    validate_date_range(req.from, req.to)
}

/// The days `from..=to` in increasing order; empty when `from` is after `to`.
pub open spec fn days_between(from: Date, to: Date) -> Seq<Date> {
    if from.0 <= to.0 {
        Seq::new((to.0 - from.0 + 1) as nat, |i: int| Date((from.0 + i) as i32))
    } else {
        Seq::empty()
    }
}

/// The days a calendar creation inserts, one after the other. The day after
/// `to` must exist, since the walk steps past it.
pub fn days_in_range(from: Date, to: Date) -> (days: Vec<Date>)
    requires
        from.0 > to.0 || to.0 < i32::MAX,
    ensures
        days@ == days_between(from, to),
{
    let mut days: Vec<Date> = Vec::new();
    let mut day: i32 = from.0;
    while day <= to.0
        invariant
            from.0 > to.0 || to.0 < i32::MAX,
            from.0 <= day,
            from.0 <= to.0 ==> day <= to.0 + 1,
            from.0 > to.0 ==> day == from.0,
            days@.len() == day - from.0,
            forall|i: int| 0 <= i < days@.len() ==> days@[i] == Date((from.0 + i) as i32),
        decreases to.0 + 1 - day,
    {
        days.push(Date(day));
        day = day + 1;
    }
    assert(days@ =~= days_between(from, to));
    days
}

/// A deletion is refused when any day of its range is covered by a booking
/// that is not cancelled; `covered` is the number of such days, when known.
pub fn check_delete(covered: Option<i64>) -> (r: Result<(), AppError>)
    ensures
        r is Err <==> (covered matches Some(n) && n > 0),
        r matches Err(e) ==> (e matches AppError::Conflict(m) && m@ == booked_days_text()),
{
    let n = match covered {
        Some(n) => n,
        None => 0,
    };
    if n > 0 {
        let v = chars_of("one or more calendar entries are referenced by active bookings");
        return Err(AppError::Conflict(string_of(&v)));
    }
    Ok(())
}

/// Entries in non-decreasing date order.
pub open spec fn sorted_by_date(s: Seq<CalendarEntry>) -> bool {
    forall|i: int, j: int| 0 <= i < j < s.len() ==> s[i].date.0 <= s[j].date.0
}

proof fn lemma_insert_multiset(s: Seq<CalendarEntry>, p: int, x: CalendarEntry)
    requires
        0 <= p <= s.len(),
    ensures
        s.insert(p, x).to_multiset() =~= s.to_multiset().insert(x),
{
    let a = s.subrange(0, p);
    let b = s.subrange(p, s.len() as int);
    assert(s =~= a + b);
    assert(s.insert(p, x) =~= a.push(x) + b);
    lemma_multiset_commutative(a.push(x), b);
    lemma_multiset_commutative(a, b);
}

/// The same entries in date order.
pub fn sort_by_date(entries: Vec<CalendarEntry>) -> (r: Vec<CalendarEntry>)
    ensures
        r@.to_multiset() =~= entries@.to_multiset(),
        sorted_by_date(r@),
{
    let mut r: Vec<CalendarEntry> = Vec::new();
    let mut k: usize = 0;
    while k < entries.len()
        invariant
            k <= entries.len(),
            r@.to_multiset() =~= entries@.subrange(0, k as int).to_multiset(),
            sorted_by_date(r@),
        decreases entries.len() - k,
    {
        let x = entries[k];
        let mut p: usize = 0;
        while p < r.len() && r[p].date.0 <= x.date.0
            invariant
                p <= r.len(),
                forall|i: int| 0 <= i < p ==> r@[i].date.0 <= x.date.0,
            decreases r.len() - p,
        {
            p = p + 1;
        }
        proof {
            lemma_insert_multiset(r@, p as int, x);
            assert(entries@.subrange(0, k + 1) =~= entries@.subrange(0, k as int).push(x));
        }
        let ghost before = r@;
        r.insert(p, x);
        assert(sorted_by_date(r@)) by {
            assert forall|i: int, j: int| 0 <= i < j < r@.len() implies r@[i].date.0
                <= r@[j].date.0 by {
                if p < before.len() {
                    assert(before[p as int].date.0 > x.date.0);
                }
            }
        }
        k = k + 1;
    }
    assert(entries@.subrange(0, entries.len() as int) =~= entries@);
    r
}

/// `"calendar entry <id> not found for house <house_id>"`.
pub open spec fn entry_not_found_text(id: int, house_id: int) -> Seq<char> {
    "calendar entry "@ + decimal_of(id) + " not found for house "@ + decimal_of(house_id)
}

/// A lookup of a calendar entry of a house that found nothing.
pub fn entry_not_found(id: i64, house_id: i64) -> (e: AppError)
    ensures
        e matches AppError::NotFound(m) && m@ == entry_not_found_text(id as int, house_id as int),
{
    let mut v: Vec<char> = Vec::new();
    push_str(&mut v, "calendar entry ");
    push_decimal(id, &mut v);
    push_str(&mut v, " not found for house ");
    push_decimal(house_id, &mut v);
    AppError::NotFound(string_of(&v))
}

} // verus!
