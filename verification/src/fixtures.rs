//! Target selection of the load generator: the bookings and free stay
//! windows that its write scenarios use, found from what the service lists.

use vstd::prelude::*;
use vstd::seq_lib::lemma_multiset_commutative;

use chrono::{Datelike, NaiveDate};

use crate::chance::{choose_id, draw_between, sample_ids};
use crate::models::Date;
use crate::text::same_text;

verus! {

broadcast use vstd::seq_lib::group_to_multiset_ensures;

/// A calendar day as the service lists it: its date and status name.
#[derive(Clone, Debug)]
pub struct FixtureDay {
    pub date: Date,
    pub status: String,
}

/// A booking as the service lists it, reduced to what target selection reads.
#[derive(Clone, Debug)]
pub struct FixtureBooking {
    pub id: i64,
    pub person_id: i64,
    pub status: String,
    pub paid_at: Option<Date>,
}

/// A stay window `from..=to` of a house whose days are all rentable.
#[derive(Clone, Copy, Debug, PartialEq, Eq, Structural)]
pub struct FreeWindow {
    pub house_id: i64,
    pub from: Date,
    pub to: Date,
}

/// Days in non-decreasing order.
pub open spec fn dates_sorted(s: Seq<Date>) -> bool {
    forall|i: int, j: int| 0 <= i < j < s.len() ==> s[i].0 <= s[j].0
}

proof fn lemma_insert_multiset(s: Seq<Date>, p: int, x: Date)
    requires
        0 <= p <= s.len(),
    ensures
        s.insert(p, x).to_multiset() =~= s.to_multiset().insert(x),
{
    let a = s.subrange(0, p);
    let b = s.subrange(p, s.len() as int);
    assert(s =~= a + b);
    assert(s.insert(p, x) =~= a.push(x) + b);
    lemma_multiset_commutative(a.push(x), b);
    lemma_multiset_commutative(a, b);
}

/// The same days in non-decreasing order.
pub fn sort_dates(v: Vec<Date>) -> (r: Vec<Date>)
    ensures
        r@.to_multiset() =~= v@.to_multiset(),
        dates_sorted(r@),
{
    let mut r: Vec<Date> = Vec::new();
    let mut k: usize = 0;
    while k < v.len()
        invariant
            k <= v.len(),
            r@.to_multiset() =~= v@.subrange(0, k as int).to_multiset(),
            dates_sorted(r@),
        decreases v.len() - k,
    {
        let x = v[k];
        let mut p: usize = 0;
        while p < r.len() && r[p].0 <= x.0
            invariant
                p <= r.len(),
                forall|i: int| 0 <= i < p ==> r@[i].0 <= x.0,
            decreases r.len() - p,
        {
            p = p + 1;
        }
        proof {
            lemma_insert_multiset(r@, p as int, x);
            assert(v@.subrange(0, k + 1) =~= v@.subrange(0, k as int).push(x));
        }
        let ghost before = r@;
        r.insert(p, x);
        assert(dates_sorted(r@)) by {
            assert forall|i: int, j: int| 0 <= i < j < r@.len() implies r@[i].0 <= r@[j].0 by {
                if p < before.len() {
                    assert(before[p as int].0 > x.0);
                }
            }
        }
        k = k + 1;
    }
    assert(v@.subrange(0, v.len() as int) =~= v@);
    r
}

/// The windows cut from a run of consecutive days: `win` days each, taken
/// from the start of the run, the rest of the run left over.
pub open spec fn run_windows(house_id: i64, run: Seq<Date>, win: int) -> Seq<FreeWindow> {
    Seq::new(
        (run.len() as int / win) as nat,
        |k: int| FreeWindow { house_id: house_id, from: run[k * win], to: run[k * win + win - 1] },
    )
}

proof fn lemma_window_in_prefix(k: int, win: int, i: int)
    requires
        win > 0,
        i % win == 0,
        0 <= k < i / win,
    ensures
        k * win + win <= i,
        0 <= k * win,
{
    assert(k * win + win <= (i / win) * win) by (nonlinear_arith)
        requires
            0 <= k < i / win,
            win > 0,
    ;
    assert((i / win) * win == i) by (nonlinear_arith)
        requires
            i % win == 0,
            win > 0,
    ;
    assert(0 <= k * win) by (nonlinear_arith)
        requires
            0 <= k,
            win > 0,
    ;
}

proof fn lemma_run_windows_step(house_id: i64, run: Seq<Date>, win: int, i: int)
    requires
        win > 0,
        0 <= i,
        i % win == 0,
        i + win <= run.len(),
    ensures
        run_windows(house_id, run.subrange(0, i + win), win) =~= run_windows(
            house_id,
            run.subrange(0, i),
            win,
        ).push(FreeWindow { house_id, from: run[i], to: run[i + win - 1] }),
        (i + win) % win == 0,
{
    assert(i / win + 1 == (i + win) / win) by (nonlinear_arith)
        requires
            i % win == 0,
            win > 0,
    ;
    assert((i / win) * win == i) by (nonlinear_arith)
        requires
            i % win == 0,
            win > 0,
    ;
    assert((i + win) % win == 0) by (nonlinear_arith)
        requires
            i % win == 0,
            win > 0,
    ;
    let a = run_windows(house_id, run.subrange(0, i + win), win);
    let b = run_windows(house_id, run.subrange(0, i), win).push(
        FreeWindow { house_id, from: run[i], to: run[i + win - 1] },
    );
    assert forall|k: int| 0 <= k < a.len() implies a[k] == b[k] by {
        if k < i / win {
            lemma_window_in_prefix(k, win, i);
        }
    }
}

proof fn lemma_run_windows_done(house_id: i64, run: Seq<Date>, win: int, i: int)
    requires
        win > 0,
        0 <= i <= run.len(),
        i % win == 0,
        run.len() < i + win,
    ensures
        run_windows(house_id, run.subrange(0, i), win) =~= run_windows(house_id, run, win),
{
    assert(run.len() as int / win == i / win) by (nonlinear_arith)
        requires
            i % win == 0,
            win > 0,
            0 <= i <= run.len(),
            run.len() < i + win,
    ;
    let a = run_windows(house_id, run.subrange(0, i), win);
    let b = run_windows(house_id, run, win);
    assert forall|k: int| 0 <= k < a.len() implies a[k] == b[k] by {
        lemma_window_in_prefix(k, win, i);
    }
}

/// Appends the non-overlapping windows of `win` days of a run.
pub fn flush_run(house_id: i64, run: &Vec<Date>, win: usize, out: &mut Vec<FreeWindow>)
    requires
        win > 0,
    ensures
        final(out)@ == old(out)@ + run_windows(house_id, run@, win as int),
{
    let mut i: usize = 0;
    let ghost start = out@;
    while win <= run.len() - i
        invariant
            win > 0,
            i % win == 0,
            i <= run.len(),
            out@ == start + run_windows(house_id, run@.subrange(0, i as int), win as int),
        decreases run.len() - i,
    {
        proof {
            lemma_run_windows_step(house_id, run@, win as int, i as int);
        }
        out.push(FreeWindow { house_id, from: run[i], to: run[i + win - 1] });
        i = i + win;
    }
    proof {
        lemma_run_windows_done(house_id, run@, win as int, i as int);
    }
}

/// The maximal runs of consecutive days of a day sequence, in order: a day
/// joins the current run when it is the day after the run's last day.
pub open spec fn split_runs(ds: Seq<Date>) -> Seq<Seq<Date>>
    decreases ds.len(),
{
    if ds.len() == 0 {
        Seq::empty()
    } else {
        let rs = split_runs(ds.drop_last());
        let d = ds.last();
        if rs.len() > 0 && rs.last().len() > 0 && d.0 == rs.last().last().0 + 1 {
            rs.update(rs.len() - 1, rs.last().push(d))
        } else {
            rs.push(seq![d])
        }
    }
}

/// The windows cut from each run, run after run.
pub open spec fn windows_of_runs(house_id: i64, rs: Seq<Seq<Date>>, win: int) -> Seq<FreeWindow>
    decreases rs.len(),
{
    if rs.len() == 0 {
        Seq::empty()
    } else {
        windows_of_runs(house_id, rs.drop_last(), win) + run_windows(house_id, rs.last(), win)
    }
}

/// The free windows of `win` days found in a day sequence.
pub open spec fn free_windows(house_id: i64, ds: Seq<Date>, win: int) -> Seq<FreeWindow> {
    windows_of_runs(house_id, split_runs(ds), win)
}

proof fn lemma_split_runs_last(ds: Seq<Date>)
    requires
        ds.len() > 0,
    ensures
        split_runs(ds).len() > 0,
        split_runs(ds).last().len() > 0,
        split_runs(ds).last().last() == ds.last(),
{
}

/// Appends the free windows of `win` days of a day sequence in date order:
/// each maximal run of consecutive days gives the windows cut from its
/// start.
pub fn windows_of_sorted(house_id: i64, ds: &Vec<Date>, win: usize, out: &mut Vec<FreeWindow>)
    requires
        win > 0,
    ensures
        final(out)@ == old(out)@ + free_windows(house_id, ds@, win as int),
{
    let ghost start = out@;
    let mut run: Vec<Date> = Vec::new();
    let mut last: Option<Date> = None;
    let mut k: usize = 0;
    while k < ds.len()
        invariant
            win > 0,
            k <= ds.len(),
            k == 0 ==> run@.len() == 0 && last is None && out@ == start,
            k > 0 ==> {
                let rs = split_runs(ds@.subrange(0, k as int));
                &&& rs.len() > 0
                &&& run@ == rs.last()
                &&& last == Some(ds@[k - 1])
                &&& out@ == start + windows_of_runs(house_id, rs.drop_last(), win as int)
            },
        decreases ds.len() - k,
    {
        let d = ds[k];
        let contiguous = match last {
            Some(prev) => d.0 as i64 - prev.0 as i64 == 1,
            None => false,
        };
        let ghost pre = ds@.subrange(0, k as int);
        let ghost post = ds@.subrange(0, k + 1);
        proof {
            assert(post.drop_last() =~= pre);
            if k > 0 {
                lemma_split_runs_last(pre);
                assert(pre.last() == ds@[k - 1]);
            }
        }
        if !contiguous {
            let ghost before = out@;
            flush_run(house_id, &run, win, out);
            proof {
                if k > 0 {
                    let rs = split_runs(pre);
                    assert(split_runs(post) == rs.push(seq![d]));
                    assert(split_runs(post).drop_last() =~= rs);
                    assert(windows_of_runs(house_id, rs, win as int) == windows_of_runs(
                        house_id,
                        rs.drop_last(),
                        win as int,
                    ) + run_windows(house_id, rs.last(), win as int));
                    assert(out@ =~= start + windows_of_runs(house_id, rs, win as int));
                } else {
                    assert(run_windows(house_id, run@, win as int) =~= Seq::<FreeWindow>::empty());
                    assert(out@ =~= start);
                    assert(split_runs(post) =~= seq![seq![d]]);
                    assert(split_runs(post).drop_last() =~= Seq::<Seq<Date>>::empty());
                }
            }
            run.clear();
        } else {
            proof {
                let rs = split_runs(pre);
                assert(split_runs(post) == rs.update(rs.len() - 1, rs.last().push(d)));
                assert(split_runs(post).drop_last() =~= rs.drop_last());
            }
        }
        run.push(d);
        last = Some(d);
        proof {
            assert(run@ =~= split_runs(post).last());
        }
        k = k + 1;
    }
    let ghost before = out@;
    flush_run(house_id, &run, win, out);
    proof {
        assert(ds@.subrange(0, ds@.len() as int) =~= ds@);
        if k == 0 {
            assert(run_windows(house_id, run@, win as int) =~= Seq::<FreeWindow>::empty());
            assert(ds@ =~= Seq::<Date>::empty());
            assert(out@ =~= start + free_windows(house_id, ds@, win as int));
        } else {
            let rs = split_runs(ds@);
            assert(out@ =~= start + windows_of_runs(house_id, rs, win as int));
        }
    }
}

/// The dates of the rentable days, in listed order.
pub open spec fn rentable_dates(days: Seq<FixtureDay>) -> Seq<Date>
    decreases days.len(),
{
    if days.len() == 0 {
        Seq::empty()
    } else {
        let rest = rentable_dates(days.drop_last());
        if days.last().status@ == "Rentable"@ {
            rest.push(days.last().date)
        } else {
            rest
        }
    }
}

/// The length of the stay windows the load generator books.
pub const WINDOW_DAYS: usize = 3;

/// Appends the free 3-day windows of a house's listed calendar: the
/// rentable days are put in date order (the order is unique up to equal
/// dates, which carry nothing else), split into maximal runs of
/// consecutive days, and each run gives the non-overlapping windows cut
/// from its start.
pub fn extract_free_windows(house_id: i64, entries: &Vec<FixtureDay>, out: &mut Vec<FreeWindow>)
    ensures
        exists|ds: Seq<Date>|
            {
                &&& dates_sorted(ds)
                &&& #[trigger] ds.to_multiset() =~= rentable_dates(entries@).to_multiset()
                &&& final(out)@ == old(out)@ + free_windows(house_id, ds, WINDOW_DAYS as int)
            },
{
    let mut dates: Vec<Date> = Vec::new();
    let mut k: usize = 0;
    while k < entries.len()
        invariant
            k <= entries.len(),
            dates@ == rentable_dates(entries@.subrange(0, k as int)),
        decreases entries.len() - k,
    {
        proof {
            assert(entries@.subrange(0, k + 1).drop_last() =~= entries@.subrange(0, k as int));
        }
        if same_text(entries[k].status.as_str(), "Rentable") {
            dates.push(entries[k].date);
        }
        k = k + 1;
    }
    assert(entries@.subrange(0, entries.len() as int) =~= entries@);
    let sorted = sort_dates(dates);
    windows_of_sorted(house_id, &sorted, WINDOW_DAYS, out);
}

/// The ids of bookings, in listed order.
pub open spec fn booking_ids_of(bs: Seq<FixtureBooking>) -> Seq<i64> {
    Seq::new(bs.len(), |i: int| bs[i].id)
}

/// Whether a listed booking is active and has no payment yet.
pub open spec fn unpaid_active(b: FixtureBooking) -> bool {
    b.status@ == "Active"@ && b.paid_at is None
}

/// The ids of the active bookings without payment, in listed order.
pub open spec fn unpaid_ids_of(bs: Seq<FixtureBooking>) -> Seq<i64>
    decreases bs.len(),
{
    if bs.len() == 0 {
        Seq::empty()
    } else {
        let rest = unpaid_ids_of(bs.drop_last());
        if unpaid_active(bs.last()) {
            rest.push(bs.last().id)
        } else {
            rest
        }
    }
}

/// Sorts listed bookings into the pools of the write scenarios: every
/// booking id, the ids of active bookings without payment, and the persons
/// seen, each person once.
pub fn collect_booking_fixtures(
    bookings: &Vec<FixtureBooking>,
    booking_ids: &mut Vec<i64>,
    unpaid: &mut Vec<i64>,
    persons: &mut Vec<i64>,
)
    requires
        old(persons)@.no_duplicates(),
    ensures
        final(booking_ids)@ == old(booking_ids)@ + booking_ids_of(bookings@),
        final(unpaid)@ == old(unpaid)@ + unpaid_ids_of(bookings@),
        final(persons)@.no_duplicates(),
        old(persons)@.is_prefix_of(final(persons)@),
        forall|p: i64|
            #[trigger] final(persons)@.contains(p) <==> (old(persons)@.contains(p) || exists|i: int|
                0 <= i < bookings@.len() && bookings@[i].person_id == p),
{
    let ghost ids0 = booking_ids@;
    let ghost unpaid0 = unpaid@;
    let ghost persons0 = persons@;
    let mut k: usize = 0;
    while k < bookings.len()
        invariant
            k <= bookings.len(),
            booking_ids@ == ids0 + booking_ids_of(bookings@.subrange(0, k as int)),
            unpaid@ == unpaid0 + unpaid_ids_of(bookings@.subrange(0, k as int)),
            persons@.no_duplicates(),
            persons0.is_prefix_of(persons@),
            forall|p: i64|
                #[trigger] persons@.contains(p) <==> (persons0.contains(p) || exists|i: int|
                    0 <= i < k && bookings@[i].person_id == p),
        decreases bookings.len() - k,
    {
        let b = &bookings[k];
        let ghost pre = bookings@.subrange(0, k as int);
        let ghost post = bookings@.subrange(0, k + 1);
        proof {
            assert(post.drop_last() =~= pre);
        }
        booking_ids.push(b.id);
        assert(booking_ids_of(post) =~= booking_ids_of(pre).push(b.id));
        if same_text(b.status.as_str(), "Active") && b.paid_at.is_none() {
            unpaid.push(b.id);
        }
        let mut seen = false;
        let mut j: usize = 0;
        while j < persons.len()
            invariant
                j <= persons.len(),
                seen <==> exists|q: int| 0 <= q < j && persons@[q] == b.person_id,
            decreases persons.len() - j,
        {
            if persons[j] == b.person_id {
                seen = true;
            }
            j = j + 1;
        }
        let ghost before = persons@;
        if !seen {
            persons.push(b.person_id);
            proof {
                assert forall|x: int, y: int|
                    0 <= x < persons@.len() && 0 <= y < persons@.len() && x != y implies persons@[x]
                    != persons@[y] by {
                    if x < before.len() && y < before.len() {
                        assert(before[x] != before[y]);
                    }
                }
            }
        }
        proof {
            assert forall|p: i64| #[trigger] persons@.contains(p) <==> (persons0.contains(p)
                || exists|i: int| 0 <= i < k + 1 && bookings@[i].person_id == p) by {
                if persons@.contains(p) && !before.contains(p) {
                    assert(p == b.person_id);
                    assert(bookings@[k as int].person_id == p);
                }
                if exists|i: int| 0 <= i < k + 1 && bookings@[i].person_id == p {
                    let i = choose|i: int| 0 <= i < k + 1 && bookings@[i].person_id == p;
                    if i == k {
                        if seen {
                            let q = choose|q: int| 0 <= q < before.len() && before[q] == p;
                            assert(persons@[q] == p);
                        } else {
                            assert(persons@[persons@.len() - 1] == p);
                        }
                    } else {
                        assert(before.contains(p));
                        let q = choose|q: int| 0 <= q < before.len() && before[q] == p;
                        assert(persons@[q] == p);
                    }
                }
                if persons0.contains(p) {
                    let q = choose|q: int| 0 <= q < persons0.len() && persons0[q] == p;
                    assert(persons@[q] == p);
                }
            }
        }
        k = k + 1;
    }
    assert(bookings@.subrange(0, bookings.len() as int) =~= bookings@);
}

/// Whether a year is a leap year of the proleptic Gregorian calendar.
pub open spec fn leap_year(y: int) -> bool {
    y % 4 == 0 && (y % 100 != 0 || y % 400 == 0)
}

/// The number of days of a month of a year.
pub open spec fn month_days(y: int, m: int) -> int {
    if m == 2 {
        if leap_year(y) {
            29
        } else {
            28
        }
    } else if m == 4 || m == 6 || m == 9 || m == 11 {
        30
    } else {
        31
    }
}

/// The days of the months before month `m` of year `y`.
pub open spec fn days_before_month(y: int, m: int) -> int
    decreases m,
{
    if m <= 1 {
        0
    } else {
        days_before_month(y, m - 1) + month_days(y, m - 1)
    }
}

/// The days of the proleptic Gregorian years before year `y`, counted from
/// year 1 (negative for years before it).
pub open spec fn days_before_year(y: int) -> int {
    let p = y - 1;
    365 * p + p / 4 - p / 100 + p / 400
}

/// The day number (days from the common era, 0001-01-01 being day 1, in
/// the proleptic Gregorian calendar) of a calendar date, where that date
/// exists in chrono's range of years, -262143..=262142.
pub open spec fn ymd_day(year: i32, month: u32, day: u32) -> Option<i32> {
    if -262143 <= year <= 262142 && 1 <= month <= 12 && 1 <= day <= month_days(
        year as int,
        month as int,
    ) {
        Some((days_before_year(year as int) + days_before_month(year as int, month as int) + day) as i32)
    } else {
        None
    }
}

/// `NaiveDate::from_ymd_opt`, then `Datelike::num_days_from_ce` on the date
/// it gives. chrono documents `None` exactly for a day that does not exist,
/// an invalid month or day, or a year outside its range, which its source
/// sets to -262143..=262142 (every day of those years exists), and documents
/// the day number as the count of days of the proleptic Gregorian calendar
/// with 0001-01-01 as day 1.
#[verifier::external_body]
fn date_of(year: i32, month: u32, day: u32) -> (r: Option<Date>)
    ensures
        r == (match ymd_day(year, month, day) {
            Some(d) => Some(Date(d)),
            None => None::<Date>,
        }),
        1 <= month <= 12 && day == 1 && -262143 <= year <= 262142 ==> r is Some,
{
    match NaiveDate::from_ymd_opt(year, month, day) {
        Some(d) => Some(Date(d.num_days_from_ce())),
        None => None,
    }
}

/// The window a browsing user views of a house calendar for a month: its
/// first day and the 29 days after it.
pub open spec fn view_window(year: i32, month: u32) -> Option<(Date, Date)> {
    match ymd_day(year, month, 1) {
        Some(d) => if d + 29 <= i32::MAX {
            Some((Date(d), Date((d + 29) as i32)))
        } else {
            None
        },
        None => None,
    }
}

/// The window viewed for a given month.
pub fn view_window_of(year: i32, month: u32) -> (r: Option<(Date, Date)>)
    ensures
        r == view_window(year, month),
{
    match date_of(year, month, 1) {
        Some(from) => {
            if from.0 <= i32::MAX - 29 {
                Some((from, Date(from.0 + 29)))
            } else {
                None
            }
        },
        None => None,
    }
}

/// The first year whose months are browsed.
pub const VIEW_FIRST_YEAR: i32 = 2025;

/// The last year whose months are browsed.
pub const VIEW_LAST_YEAR: i32 = 2034;

/// A calendar window to browse: the first of a random month of 2025..=2034
/// and the 29 days after it.
pub fn calendar_view_window() -> (r: Option<(Date, Date)>)
    ensures
        exists|year: i32, month: u32|
            #![trigger view_window(year, month)]
            VIEW_FIRST_YEAR <= year <= VIEW_LAST_YEAR && 1 <= month <= 12 && r == view_window(year, month),
{
    let year = draw_between(2025, 2034) as i32;
    let month = draw_between(1, 12) as u32;
    let r = view_window_of(year, month);
    assert(VIEW_FIRST_YEAR <= year <= VIEW_LAST_YEAR && 1 <= month <= 12 && r == view_window(year, month));
    r
}

/// A random id of a non-empty pool.
pub fn pick(pool: &[i64]) -> (r: i64)
    requires
        pool@.len() > 0,
    ensures
        pool@.contains(r),
{
    match choose_id(pool) {
        Some(id) => id,
        None => pool[0],
    }
}

/// Days of which each is the day after the one before it.
pub open spec fn consecutive(run: Seq<Date>) -> bool {
    forall|k: int| 0 <= k < run.len() ==> #[trigger] run[k].0 == run[0].0 + k
}

/// Days in strictly increasing order: sorted, no day twice.
pub open spec fn strictly_increasing(ds: Seq<Date>) -> bool {
    forall|i: int, j: int| 0 <= i < j < ds.len() ==> ds[i].0 < ds[j].0
}

/// A window of a house that spans `win` consecutive days, each of them one
/// of the given days.
pub open spec fn spans_given_days(w: FreeWindow, house_id: i64, ds: Seq<Date>, win: int) -> bool {
    &&& w.house_id == house_id
    &&& w.to.0 == w.from.0 + win - 1
    &&& forall|d: int| w.from.0 <= d <= w.to.0 ==> #[trigger] ds.contains(Date(d as i32))
}

/// Windows that do not overlap and come in date order.
pub open spec fn windows_ordered(ws: Seq<FreeWindow>) -> bool {
    forall|i: int, j: int| 0 <= i < j < ws.len() ==> ws[i].to.0 < ws[j].from.0
}

/// The shape of the runs of a day sequence: each run is a non-empty
/// stretch of consecutive days drawn from the sequence, and over days in
/// strictly increasing order each run ends before the next begins.
spec fn runs_shaped(rs: Seq<Seq<Date>>, ds: Seq<Date>) -> bool {
    &&& forall|i: int| 0 <= i < rs.len() ==> (#[trigger] rs[i]).len() > 0 && consecutive(rs[i])
    &&& forall|i: int, k: int| 0 <= i < rs.len() && 0 <= k < rs[i].len() ==> ds.contains(#[trigger] rs[i][k])
    &&& strictly_increasing(ds) ==> forall|i: int, j: int|
        0 <= i < j < rs.len() ==> (#[trigger] rs[i]).last().0 < (#[trigger] rs[j])[0].0
}

proof fn lemma_split_runs_shaped(ds: Seq<Date>)
    ensures
        runs_shaped(split_runs(ds), ds),
        ds.len() > 0 ==> split_runs(ds).len() > 0 && split_runs(ds).last().last() == ds.last(),
    decreases ds.len(),
{
    if ds.len() > 0 {
        let p = ds.drop_last();
        let d = ds.last();
        let ps = split_runs(p);
        lemma_split_runs_shaped(p);
        let rs = split_runs(ds);
        assert forall|i: int, k: int| 0 <= i < ps.len() && 0 <= k < ps[i].len() implies ds.contains(
            #[trigger] ps[i][k],
        ) by {
            assert(p.contains(ps[i][k]));
            let j = choose|j: int| 0 <= j < p.len() && p[j] == ps[i][k];
            assert(ds[j] == p[j]);
        }
        assert(ds[ds.len() - 1] == d);
        if ps.len() > 0 && ps.last().len() > 0 && d.0 == ps.last().last().0 + 1 {
            let n = ps.len() - 1;
            let run = ps.last().push(d);
            assert(rs == ps.update(n, run));
            assert(consecutive(run)) by {
                assert forall|k: int| 0 <= k < run.len() implies #[trigger] run[k].0 == run[0].0 + k by {
                    if k < run.len() - 1 {
                        assert(run[k] == ps[n][k]);
                    } else {
                        assert(ps[n][ps[n].len() - 1].0 == ps[n][0].0 + ps[n].len() - 1);
                    }
                }
            }
            assert forall|i: int, k: int| 0 <= i < rs.len() && 0 <= k < rs[i].len() implies ds.contains(
                #[trigger] rs[i][k],
            ) by {
                if i == n && k == rs[i].len() - 1 {
                    assert(rs[i][k] == ds[ds.len() - 1]);
                } else {
                    assert(rs[i][k] == ps[i][k]);
                }
            }
            if strictly_increasing(ds) {
                assert(strictly_increasing(p));
                assert forall|i: int, j: int| 0 <= i < j < rs.len() implies (#[trigger] rs[i]).last().0 < (
                #[trigger] rs[j])[0].0 by {
                    assert(rs[j][0] == ps[j][0]);
                    assert(rs[i] == ps[i]);
                }
            }
        } else {
            let run = seq![d];
            assert(rs == ps.push(run));
            assert(consecutive(run));
            assert forall|i: int, k: int| 0 <= i < rs.len() && 0 <= k < rs[i].len() implies ds.contains(
                #[trigger] rs[i][k],
            ) by {
                if i == ps.len() {
                    assert(rs[i][k] == ds[ds.len() - 1]);
                } else {
                    assert(rs[i] == ps[i]);
                }
            }
            if strictly_increasing(ds) {
                assert(strictly_increasing(p));
                assert forall|i: int, j: int| 0 <= i < j < rs.len() implies (#[trigger] rs[i]).last().0 < (
                #[trigger] rs[j])[0].0 by {
                    assert(rs[i] == ps[i]);
                    if j == ps.len() {
                        let x = ps[i][ps[i].len() - 1];
                        assert(p.contains(x));
                        let q = choose|q: int| 0 <= q < p.len() && p[q] == x;
                        assert(ds[q] == x);
                    } else {
                        assert(rs[j] == ps[j]);
                    }
                }
            }
        }
    }
}

proof fn lemma_run_windows_shaped(house_id: i64, run: Seq<Date>, ds: Seq<Date>, win: int)
    requires
        win > 0,
        run.len() > 0,
        consecutive(run),
        forall|k: int| 0 <= k < run.len() ==> ds.contains(#[trigger] run[k]),
    ensures
        forall|i: int|
            0 <= i < run_windows(house_id, run, win).len() ==> spans_given_days(
                #[trigger] run_windows(house_id, run, win)[i],
                house_id,
                ds,
                win,
            ),
        windows_ordered(run_windows(house_id, run, win)),
        forall|i: int|
            0 <= i < run_windows(house_id, run, win).len() ==> run[0].0 <= (#[trigger] run_windows(
                house_id,
                run,
                win,
            )[i]).from.0 && run_windows(house_id, run, win)[i].to.0 <= run.last().0,
{
    let ws = run_windows(house_id, run, win);
    assert forall|i: int| 0 <= i < ws.len() implies #[trigger] ws[i].from.0 == run[0].0 + i * win
        && ws[i].to.0 == run[0].0 + i * win + win - 1 && i * win + win <= run.len() && 0 <= i * win by {
        assert(i * win + win <= (run.len() as int / win) * win) by (nonlinear_arith)
            requires
                0 <= i < run.len() as int / win,
                win > 0,
        ;
        assert((run.len() as int / win) * win <= run.len()) by (nonlinear_arith)
            requires
                win > 0,
                run.len() >= 0,
        ;
        assert(0 <= i * win) by (nonlinear_arith)
            requires
                0 <= i,
                win > 0,
        ;
        assert(run[i * win].0 == run[0].0 + i * win);
        assert(run[i * win + win - 1].0 == run[0].0 + i * win + win - 1);
    }
    assert forall|i: int| 0 <= i < ws.len() implies spans_given_days(#[trigger] ws[i], house_id, ds, win) by {
        assert(ws[i].from.0 == run[0].0 + i * win);
        assert forall|d: int| ws[i].from.0 <= d <= ws[i].to.0 implies #[trigger] ds.contains(
            Date(d as i32),
        ) by {
            let t = i * win + (d - ws[i].from.0);
            assert(run[t].0 == run[0].0 + t);
            assert(run[t] == Date(d as i32));
            assert(ds.contains(run[t]));
        }
    }
    assert forall|i: int, j: int| 0 <= i < j < ws.len() implies ws[i].to.0 < ws[j].from.0 by {
        assert(ws[i].from.0 == run[0].0 + i * win);
        assert(ws[j].from.0 == run[0].0 + j * win);
        assert(i * win + win <= j * win) by (nonlinear_arith)
            requires
                0 <= i < j,
                win > 0,
        ;
    }
    assert forall|i: int| 0 <= i < ws.len() implies run[0].0 <= (#[trigger] ws[i]).from.0 && ws[i].to.0
        <= run.last().0 by {
        assert(ws[i].from.0 == run[0].0 + i * win);
        assert(run[run.len() - 1].0 == run[0].0 + run.len() - 1);
    }
}

proof fn lemma_windows_of_runs_shaped(house_id: i64, rs: Seq<Seq<Date>>, ds: Seq<Date>, win: int)
    requires
        win > 0,
        runs_shaped(rs, ds),
    ensures
        forall|i: int|
            0 <= i < windows_of_runs(house_id, rs, win).len() ==> spans_given_days(
                #[trigger] windows_of_runs(house_id, rs, win)[i],
                house_id,
                ds,
                win,
            ),
        strictly_increasing(ds) ==> windows_ordered(windows_of_runs(house_id, rs, win)),
        rs.len() > 0 && strictly_increasing(ds) ==> forall|i: int|
            0 <= i < windows_of_runs(house_id, rs, win).len() ==> (#[trigger] windows_of_runs(
                house_id,
                rs,
                win,
            )[i]).to.0 <= rs.last().last().0,
    decreases rs.len(),
{
    if rs.len() > 0 {
        let front = rs.drop_last();
        let run = rs.last();
        assert(runs_shaped(front, ds)) by {
            assert forall|i: int| 0 <= i < front.len() implies (#[trigger] front[i]).len() > 0 && consecutive(
                front[i],
            ) by {
                assert(front[i] == rs[i]);
            }
            assert forall|i: int, k: int| 0 <= i < front.len() && 0 <= k < front[i].len() implies ds.contains(
                #[trigger] front[i][k],
            ) by {
                assert(front[i] == rs[i]);
            }
            if strictly_increasing(ds) {
                assert forall|i: int, j: int| 0 <= i < j < front.len() implies (#[trigger] front[i]).last().0 < (
                #[trigger] front[j])[0].0 by {
                    assert(front[i] == rs[i]);
                    assert(front[j] == rs[j]);
                }
            }
        }
        lemma_windows_of_runs_shaped(house_id, front, ds, win);
        assert(rs[rs.len() - 1] == run);
        assert(run.len() > 0 && consecutive(run));
        assert forall|k: int| 0 <= k < run.len() implies ds.contains(#[trigger] run[k]) by {
            assert(ds.contains(rs[rs.len() - 1][k]));
        }
        lemma_run_windows_shaped(house_id, run, ds, win);
        let a = windows_of_runs(house_id, front, win);
        let b = run_windows(house_id, run, win);
        let ws = windows_of_runs(house_id, rs, win);
        assert(ws == a + b);
        assert forall|i: int| 0 <= i < ws.len() implies spans_given_days(#[trigger] ws[i], house_id, ds, win) by {
            if i < a.len() {
                assert(ws[i] == a[i]);
            } else {
                assert(ws[i] == b[i - a.len()]);
            }
        }
        if strictly_increasing(ds) {
            assert forall|i: int| 0 <= i < ws.len() implies (#[trigger] ws[i]).to.0 <= rs.last().last().0 by {
                if i < a.len() {
                    assert(ws[i] == a[i]);
                    let f = front[front.len() - 1];
                    assert(f == rs[rs.len() - 2]);
                    assert(a[i].to.0 <= f.last().0);
                    assert(rs[rs.len() - 2].last().0 < rs[rs.len() - 1][0].0);
                    assert(run[run.len() - 1].0 == run[0].0 + run.len() - 1);
                } else {
                    assert(ws[i] == b[i - a.len()]);
                }
            }
            assert forall|i: int, j: int| 0 <= i < j < ws.len() implies ws[i].to.0 < ws[j].from.0 by {
                if j < a.len() {
                    assert(ws[i] == a[i]);
                    assert(ws[j] == a[j]);
                } else if i >= a.len() {
                    assert(ws[i] == b[i - a.len()]);
                    assert(ws[j] == b[j - a.len()]);
                } else {
                    assert(ws[i] == a[i]);
                    assert(ws[j] == b[j - a.len()]);
                    let f = front[front.len() - 1];
                    assert(f == rs[rs.len() - 2]);
                    assert(rs[rs.len() - 2].last().0 < rs[rs.len() - 1][0].0);
                }
            }
        }
    }
}

/// Every free window found in a sequence of days spans `win` consecutive
/// days of the house, each of them one of the given days; and where the days
/// come in strictly increasing order, the windows do not overlap and come in
/// date order.
pub proof fn law_free_windows_span_free_days(house_id: i64, ds: Seq<Date>, win: int)
    requires
        win > 0,
    ensures
        forall|i: int|
            0 <= i < free_windows(house_id, ds, win).len() ==> spans_given_days(
                #[trigger] free_windows(house_id, ds, win)[i],
                house_id,
                ds,
                win,
            ),
        strictly_increasing(ds) ==> windows_ordered(free_windows(house_id, ds, win)),
{
    lemma_split_runs_shaped(ds);
    lemma_windows_of_runs_shaped(house_id, split_runs(ds), ds, win);
}

/// The windows found in a house's calendar, in whatever date order its
/// rentable days are walked, each span three consecutive days that the
/// calendar lists as rentable.
pub proof fn law_extracted_windows_are_rentable(house_id: i64, entries: Seq<FixtureDay>, ds: Seq<Date>)
    requires
        dates_sorted(ds),
        ds.to_multiset() =~= rentable_dates(entries).to_multiset(),
    ensures
        forall|i: int|
            0 <= i < free_windows(house_id, ds, WINDOW_DAYS as int).len() ==> spans_given_days(
                #[trigger] free_windows(house_id, ds, WINDOW_DAYS as int)[i],
                house_id,
                rentable_dates(entries),
                WINDOW_DAYS as int,
            ),
{
    let ws = free_windows(house_id, ds, WINDOW_DAYS as int);
    let rd = rentable_dates(entries);
    law_free_windows_span_free_days(house_id, ds, WINDOW_DAYS as int);
    assert forall|i: int| 0 <= i < ws.len() implies spans_given_days(#[trigger] ws[i], house_id, rd, WINDOW_DAYS as int) by {
        assert(spans_given_days(ws[i], house_id, ds, WINDOW_DAYS as int));
        assert forall|d: int| ws[i].from.0 <= d <= ws[i].to.0 implies #[trigger] rd.contains(Date(d as i32)) by {
            let x = Date(d as i32);
            assert(ds.contains(x));
            assert(ds.to_multiset().count(x) > 0);
            assert(rd.to_multiset().count(x) > 0);
        }
    }
}

/// The days of a sequence of runs, run after run.
pub open spec fn joined_runs(rs: Seq<Seq<Date>>) -> Seq<Date>
    decreases rs.len(),
{
    if rs.len() == 0 {
        Seq::empty()
    } else {
        joined_runs(rs.drop_last()) + rs.last()
    }
}

/// The runs of a day sequence split it without losing or adding a day;
/// each is a non-empty stretch of consecutive days; and they are maximal:
/// no run starts on the day after the one the run before it ends on.
pub proof fn law_runs_are_maximal_stretches(ds: Seq<Date>)
    ensures
        joined_runs(split_runs(ds)) == ds,
        forall|r: int|
            0 <= r < split_runs(ds).len() ==> (#[trigger] split_runs(ds)[r]).len() > 0
                && consecutive(split_runs(ds)[r]),
        forall|r: int|
            0 < r < split_runs(ds).len() ==> (#[trigger] split_runs(ds)[r])[0].0 != split_runs(
                ds,
            )[r - 1].last().0 + 1,
    decreases ds.len(),
{
    lemma_split_runs_shaped(ds);
    if ds.len() > 0 {
        let p = ds.drop_last();
        let d = ds.last();
        let ps = split_runs(p);
        let rs = split_runs(ds);
        law_runs_are_maximal_stretches(p);
        if ps.len() > 0 && ps.last().len() > 0 && d.0 == ps.last().last().0 + 1 {
            let n = ps.len() - 1;
            assert(rs == ps.update(n, ps.last().push(d)));
            assert(rs.drop_last() =~= ps.drop_last());
            assert(joined_runs(ps) == joined_runs(ps.drop_last()) + ps.last());
            assert(joined_runs(rs) == joined_runs(rs.drop_last()) + rs.last());
            assert(joined_runs(rs) =~= joined_runs(ps).push(d));
            assert(p.push(d) =~= ds);
            assert forall|r: int| 0 < r < rs.len() implies (#[trigger] rs[r])[0].0 != rs[r - 1].last().0 + 1 by {
                assert(rs[r - 1] == ps[r - 1]);
                if r < n {
                    assert(rs[r] == ps[r]);
                } else {
                    assert(rs[r][0] == ps[r][0]);
                }
            }
        } else {
            assert(rs == ps.push(seq![d]));
            assert(rs.drop_last() =~= ps);
            assert(joined_runs(rs) =~= joined_runs(ps) + seq![d]);
            assert(p.push(d) =~= ds);
            assert forall|r: int| 0 < r < rs.len() implies (#[trigger] rs[r])[0].0 != rs[r - 1].last().0 + 1 by {
                assert(rs[r - 1] == ps[r - 1]);
                if r < ps.len() {
                    assert(rs[r] == ps[r]);
                }
            }
        }
    } else {
        assert(joined_runs(split_runs(ds)) =~= ds);
    }
}

/// A stretch of consecutive days is a single run, and its free windows are
/// the `len / win` back-to-back windows of `win` days cut from its first
/// day.
pub proof fn law_consecutive_days_form_one_run(house_id: i64, ds: Seq<Date>, win: int)
    requires
        win > 0,
        ds.len() > 0,
        forall|k: int| 0 <= k < ds.len() ==> #[trigger] ds[k].0 == ds[0].0 + k,
    ensures
        split_runs(ds) == seq![ds],
        free_windows(house_id, ds, win).len() == ds.len() as int / win,
        forall|t: int|
            0 <= t < ds.len() as int / win ==> (#[trigger] free_windows(house_id, ds, win)[t]).from.0
                == ds[0].0 + t * win && free_windows(house_id, ds, win)[t].to.0 == ds[0].0 + t * win
                + win - 1 && free_windows(house_id, ds, win)[t].house_id == house_id,
    decreases ds.len(),
{
    if ds.len() == 1 {
        assert(ds.drop_last() =~= Seq::<Date>::empty());
        assert(split_runs(ds.drop_last()) == Seq::<Seq<Date>>::empty());
        assert(ds =~= seq![ds.last()]);
        assert(split_runs(ds) == Seq::<Seq<Date>>::empty().push(seq![ds.last()]));
        assert(split_runs(ds) =~= seq![ds]);
    } else {
        let p = ds.drop_last();
        assert forall|k: int| 0 <= k < p.len() implies #[trigger] p[k].0 == p[0].0 + k by {
            assert(p[k] == ds[k]);
        }
        law_consecutive_days_form_one_run(house_id, p, win);
        assert(split_runs(p) == seq![p]);
        assert(split_runs(ds) =~= seq![p.push(ds.last())]);
        assert(p.push(ds.last()) =~= ds);
    }
    let rs = split_runs(ds);
    assert(rs == seq![ds]);
    assert(rs.drop_last() =~= Seq::<Seq<Date>>::empty());
    assert(rs.last() == ds);
    assert(windows_of_runs(house_id, rs.drop_last(), win) == Seq::<FreeWindow>::empty());
    assert(windows_of_runs(house_id, rs, win) == windows_of_runs(house_id, rs.drop_last(), win)
        + run_windows(house_id, rs.last(), win));
    assert(free_windows(house_id, ds, win) =~= run_windows(house_id, ds, win));
    assert forall|t: int| 0 <= t < ds.len() as int / win implies (#[trigger] free_windows(house_id, ds, win)[t]).from.0
        == ds[0].0 + t * win && free_windows(house_id, ds, win)[t].to.0 == ds[0].0 + t * win
        + win - 1 && free_windows(house_id, ds, win)[t].house_id == house_id by {
        assert(t * win + win <= (ds.len() as int / win) * win) by (nonlinear_arith)
            requires
                0 <= t < ds.len() as int / win,
                win > 0,
        ;
        assert((ds.len() as int / win) * win <= ds.len()) by (nonlinear_arith)
            requires
                win > 0,
                ds.len() >= 0,
        ;
        assert(0 <= t * win) by (nonlinear_arith)
            requires
                0 <= t,
                win > 0,
        ;
        assert(ds[t * win].0 == ds[0].0 + t * win);
        assert(ds[t * win + win - 1].0 == ds[0].0 + t * win + win - 1);
    }
}

/// How many houses the bookings are sampled from.
pub const BOOKING_SAMPLE_HOUSES: usize = 50;

/// How many houses the free windows are sampled from.
pub const CALENDAR_SAMPLE_HOUSES: usize = 100;

/// A random sample of distinct houses of the list, at most `max` of them:
/// all of them when the list is shorter.
pub fn sample_houses(house_ids: &Vec<i64>, max: usize) -> (r: Vec<i64>)
    ensures
        r@.len() == if max < house_ids@.len() {
            max as int
        } else {
            house_ids@.len() as int
        },
        forall|x: i64| r@.to_multiset().count(x) <= house_ids@.to_multiset().count(x),
        forall|i: int| 0 <= i < r@.len() ==> house_ids@.contains(#[trigger] r@[i]),
{
    let r = sample_ids(house_ids.as_slice(), max);
    assert forall|i: int| 0 <= i < r@.len() implies house_ids@.contains(#[trigger] r@[i]) by {
        let x = r@[i];
        assert(r@.to_multiset().count(x) > 0);
        assert(house_ids@.to_multiset().count(x) > 0);
    }
    r
}

} // verus!
