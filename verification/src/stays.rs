//! Planning of the bookings the seeder inserts: stays spread evenly over
//! the houses, never overlapping within a house, a share of them paid.

use vstd::prelude::*;

use crate::chance::{choose_id, draw_between, draw_ratio};
use crate::models::Date;
use crate::text::{chars_of, string_of};

verus! {

/// A booking the seeder inserts.
#[derive(Clone, Copy, Debug, PartialEq, Eq, Structural)]
pub struct PlannedBooking {
    pub house_id: i64,
    pub person_id: i64,
    pub from_date: Date,
    pub to_date: Date,
    pub paid_at: Option<Date>,
    pub total_paid: Option<i64>,
}

/// The shortest stay, in days.
pub const MIN_STAY: usize = 3;

/// The longest stay, in days.
pub const MAX_STAY: usize = 14;

/// The smallest distance between the starts of two stays of a house; it
/// exceeds the longest stay, so stays cannot overlap.
pub const MIN_STRIDE: usize = 20;

/// The number of days each house is planned over.
pub open spec fn house_days(years: u32) -> int {
    years * 365
}

/// What holds of every planned stay, whatever its house: its person is
/// among the given ones, its stay of 3 to 14 days lies within the planned
/// days, and a paid stay was paid 7 to 30 days before it at a nightly rate
/// of $120 to $180 (amounts in hundredths).
pub open spec fn well_formed_stay(b: PlannedBooking, person_ids: Seq<i64>, start: Date, years: u32) -> bool {
    let length = b.to_date.0 - b.from_date.0 + 1;
    &&& person_ids.contains(b.person_id)
    &&& start.0 <= b.from_date.0
    &&& b.to_date.0 < start.0 + house_days(years)
    &&& MIN_STAY <= length <= MAX_STAY
    &&& (b.paid_at is Some <==> b.total_paid is Some)
    &&& (b.paid_at matches Some(p) ==> b.from_date.0 - 30 <= p.0 <= b.from_date.0 - 7)
    &&& (b.total_paid matches Some(t) ==> exists|nightly: int|
        120 <= nightly <= 180 && t == #[trigger] stay_price(length, nightly))
}

/// What holds of every planned booking: its house is among the given ones
/// and its stay is well formed.
pub open spec fn well_planned(
    b: PlannedBooking,
    house_ids: Seq<i64>,
    person_ids: Seq<i64>,
    start: Date,
    years: u32,
) -> bool {
    &&& house_ids.contains(b.house_id)
    &&& well_formed_stay(b, person_ids, start, years)
}

/// The price of a stay of `length` nights at a nightly rate in whole
/// dollars, in hundredths.
pub open spec fn stay_price(length: int, nightly: int) -> int {
    length * nightly * 100
}

/// The stay of a house for a person, `offset` days after `start` and
/// `length` days long; paid, when `payment` gives the days before the stay
/// it was paid and the nightly rate in whole dollars, at that rate for every
/// night.
pub open spec fn stay_of(
    house_id: i64,
    person_id: i64,
    start: Date,
    offset: int,
    length: int,
    payment: Option<(usize, usize)>,
) -> PlannedBooking {
    PlannedBooking {
        house_id: house_id,
        person_id: person_id,
        from_date: Date((start.0 + offset) as i32),
        to_date: Date((start.0 + offset + length - 1) as i32),
        paid_at: match payment {
            Some((days_before, _)) => Some(Date((start.0 + offset - days_before) as i32)),
            None => None,
        },
        total_paid: match payment {
            Some((_, nightly)) => Some(stay_price(length, nightly as int) as i64),
            None => None,
        },
    }
}

/// The stay of a house for a person, given the draws that shape it.
pub fn planned_stay(
    house_id: i64,
    person_id: i64,
    start: Date,
    offset: usize,
    length: usize,
    payment: Option<(usize, usize)>,
) -> (b: PlannedBooking)
    requires
        length >= 1,
        start.0 + offset + length - 1 <= i32::MAX,
        payment matches Some((days_before, nightly)) ==> start.0 + offset - days_before >= i32::MIN
            && stay_price(length as int, nightly as int) <= i64::MAX,
    ensures
        b == stay_of(house_id, person_id, start, offset as int, length as int, payment),
{
    let from = (start.0 as i64 + offset as i64) as i32;
    let to = (start.0 as i64 + offset as i64 + length as i64 - 1) as i32;
    let (paid_at, total_paid) = match payment {
        Some((days_before, nightly)) => {
            assert(length * nightly * 100 <= i64::MAX);
            assert(length * nightly * 100 >= 0) by (nonlinear_arith);
            let total = (length as u128 * nightly as u128 * 100) as i64;
            (Some(Date((start.0 as i64 + offset as i64 - days_before as i64) as i32)), Some(total))
        },
        None => (None, None),
    };
    PlannedBooking { house_id, person_id, from_date: Date(from), to_date: Date(to), paid_at, total_paid }
}

/// How many stays each house is planned for: the target spread evenly over
/// the houses, rounded up, and at least one.
pub open spec fn stays_per_house(target: int, houses: int) -> int {
    let q = if target % houses == 0 {
        target / houses
    } else {
        target / houses + 1
    };
    if q < 1 {
        1
    } else {
        q
    }
}

/// The days between the first days of two successive stays of a house:
/// the planned days shared out over its stays, at least `MIN_STRIDE`.
pub open spec fn stay_stride(years: u32, target: int, houses: int) -> int {
    let s = house_days(years) / stays_per_house(target, houses);
    if s < MIN_STRIDE {
        MIN_STRIDE as int
    } else {
        s
    }
}

/// Each house's share of stays is the target spread over the houses,
/// rounded up, and at least one; the stride between the starts of a
/// house's stays is the whole number of planned days per stay of the
/// share, raised to `MIN_STRIDE` only when that is fewer days.
pub proof fn law_share_and_stride(years: u32, target: int, houses: int)
    requires
        houses > 0,
        target >= 0,
    ensures
        stays_per_house(target, houses) >= 1,
        stays_per_house(target, houses) * houses >= target,
        target >= 1 ==> (stays_per_house(target, houses) - 1) * houses < target,
        stay_stride(years, target, houses) >= MIN_STRIDE,
        house_days(years) >= MIN_STRIDE * stays_per_house(target, houses) ==> stay_stride(
            years,
            target,
            houses,
        ) * stays_per_house(target, houses) <= house_days(years) < (stay_stride(years, target, houses)
            + 1) * stays_per_house(target, houses),
        house_days(years) < MIN_STRIDE * stays_per_house(target, houses) ==> stay_stride(
            years,
            target,
            houses,
        ) == MIN_STRIDE,
{
    let per = stays_per_house(target, houses);
    let q = if target % houses == 0 {
        target / houses
    } else {
        target / houses + 1
    };
    assert(target == houses * (target / houses) + target % houses) by (nonlinear_arith)
        requires
            houses > 0,
    ;
    assert(0 <= target % houses < houses) by (nonlinear_arith)
        requires
            houses > 0,
    ;
    assert(q * houses >= target && (target >= 1 ==> (q - 1) * houses < target)) by (nonlinear_arith)
        requires
            houses > 0,
            target >= 0,
            target == houses * (target / houses) + target % houses,
            0 <= target % houses < houses,
            q == (if target % houses == 0 {
                target / houses
            } else {
                target / houses + 1
            }),
    ;
    assert(target / houses >= 0) by (nonlinear_arith)
        requires
            houses > 0,
            target >= 0,
    ;
    assert(per * houses >= target) by (nonlinear_arith)
        requires
            per == (if q < 1 {
                1
            } else {
                q
            }),
            q * houses >= target,
            houses > 0,
    ;
    if target >= 1 {
        assert(q >= 1) by (nonlinear_arith)
            requires
                q * houses >= target,
                target >= 1,
                houses > 0,
        ;
    }
    let days = house_days(years);
    assert(days >= 0);
    let s = days / per;
    assert(days == per * s + days % per && 0 <= days % per < per) by (nonlinear_arith)
        requires
            per >= 1,
            s == days / per,
    ;
    if days >= MIN_STRIDE * per {
        assert(s >= MIN_STRIDE) by (nonlinear_arith)
            requires
                days >= MIN_STRIDE * per,
                days == per * s + days % per,
                0 <= days % per < per,
                per >= 1,
        ;
        assert(s * per <= days < (s + 1) * per) by (nonlinear_arith)
            requires
                days == per * s + days % per,
                0 <= days % per < per,
        ;
    } else {
        assert(s < MIN_STRIDE) by (nonlinear_arith)
            requires
                days < MIN_STRIDE * per,
                days == per * s + days % per,
                0 <= days % per,
                per >= 1,
        ;
    }
}

/// A booking that opens the stays of its house in the plan.
pub open spec fn opens_house(plan: Seq<PlannedBooking>, k: int) -> bool {
    k == 0 || plan[k - 1].house_id != plan[k].house_id
}

/// A booking that closes the stays of its house in the plan.
pub open spec fn ends_house_run(plan: Seq<PlannedBooking>, k: int) -> bool {
    k == plan.len() - 1 || plan[k + 1].house_id != plan[k].house_id
}

/// What holds of the last stay of a house: it is the house's
/// `per`-th stay (it starts at least `per - 1` strides in), or a stay of the
/// longest length starting one stride after it would not fit in the
/// planned days.
pub open spec fn run_ends_in_time(b: PlannedBooking, start: Date, years: u32, per: int, stride: int) -> bool {
    ||| b.from_date.0 - start.0 >= (per - 1) * stride
    ||| b.from_date.0 - start.0 + stride + MAX_STAY > house_days(years)
}

/// Whether the plan has a stay in the given house.
pub open spec fn plans_house(plan: Seq<PlannedBooking>, x: i64) -> bool {
    exists|k: int| 0 <= k < plan.len() && (#[trigger] plan[k]).house_id == x
}

/// The plan is grouped house by house in the order of the house list:
/// `owner[k]` is the position in the list of the house of stay `k`; owners
/// never decrease; a house has fewer than `per + 1` stays, each ending
/// before the next begins, the starts of successive ones `stride` days
/// apart.
pub open spec fn grouped_by_house(
    plan: Seq<PlannedBooking>,
    house_ids: Seq<i64>,
    owner: Seq<int>,
    per: int,
    stride: int,
) -> bool {
    &&& owner.len() == plan.len()
    &&& forall|k: int|
        0 <= k < plan.len() ==> 0 <= #[trigger] owner[k] < house_ids.len() && plan[k].house_id
            == house_ids[owner[k]]
    &&& forall|i: int, j: int| 0 <= i <= j < plan.len() ==> #[trigger] owner[i] <= #[trigger] owner[j]
    &&& forall|i: int, j: int|
        0 <= i < j < plan.len() && #[trigger] owner[i] == #[trigger] owner[j] ==> j - i < per
            && plan[i].to_date.0 < plan[j].from_date.0
    &&& forall|k: int|
        0 < k < plan.len() && owner[k - 1] == #[trigger] owner[k] ==> plan[k].from_date.0 - plan[
            k - 1
        ].from_date.0 == stride
}

/// Stays of the same house never overlap.
pub open spec fn no_overlap(plan: Seq<PlannedBooking>) -> bool {
    forall|i: int, j: int|
        0 <= i < j < plan.len() && plan[i].house_id == plan[j].house_id ==> plan[i].to_date.0
            < plan[j].from_date.0
}

/// Booking seeding needs at least one house and one person.
pub fn check_booking_seed(house_ids: &Vec<i64>, person_ids: &Vec<i64>) -> (r: Result<(), String>)
    ensures
        r is Ok <==> house_ids@.len() > 0 && person_ids@.len() > 0,
        house_ids@.len() == 0 ==> (r matches Err(m) && m@ == "bookings.seed needs at least one house"@),
        house_ids@.len() > 0 && person_ids@.len() == 0 ==> (r matches Err(m) && m@
            == "bookings.seed needs at least one person"@),
{
    if house_ids.len() == 0 {
        let m = chars_of("bookings.seed needs at least one house");
        return Err(string_of(&m));
    }
    if person_ids.len() == 0 {
        let m = chars_of("bookings.seed needs at least one person");
        return Err(string_of(&m));
    }
    Ok(())
}

/// Appends the stays of one house: from a random first day within one
/// stride of `start`, one every `stride` days, at most `per`, each of a
/// random length, person and payment, stopping at the first that does not
/// fit in the planned days.
fn plan_house_stays(
    plan: &mut Vec<PlannedBooking>,
    house_id: i64,
    person_ids: &Vec<i64>,
    start: Date,
    years: u32,
    per: usize,
    stride: usize,
)
    requires
        person_ids@.len() > 0,
        per >= 1,
        MIN_STRIDE <= stride <= house_days(years) + MIN_STRIDE,
        2 * house_days(years) + 2 * MIN_STRIDE <= usize::MAX,
        start.0 - 30 >= i32::MIN,
        start.0 + house_days(years) + MIN_STRIDE <= i32::MAX,
    ensures
        old(plan)@.len() <= final(plan)@.len() <= old(plan)@.len() + per,
        forall|k: int| 0 <= k < old(plan)@.len() ==> final(plan)@[k] == old(plan)@[k],
        forall|k: int|
            old(plan)@.len() <= k < final(plan)@.len() ==> (#[trigger] final(plan)@[k]).house_id
                == house_id && well_formed_stay(final(plan)@[k], person_ids@, start, years),
        final(plan)@.len() > old(plan)@.len() ==> final(plan)@[old(plan)@.len() as int].from_date.0
            - start.0 < stride,
        forall|k: int|
            old(plan)@.len() < k < final(plan)@.len() ==> (#[trigger] final(plan)@[k]).from_date.0
                - final(plan)@[k - 1].from_date.0 == stride,
        forall|i: int, j: int|
            old(plan)@.len() <= i < j < final(plan)@.len() ==> (#[trigger] final(plan)@[i]).to_date.0
                < (#[trigger] final(plan)@[j]).from_date.0,
        final(plan)@.len() > old(plan)@.len() ==> run_ends_in_time(
            final(plan)@[final(plan)@.len() - 1],
            start,
            years,
            per as int,
            stride as int,
        ),
        stride + MAX_STAY - 1 <= house_days(years) ==> final(plan)@.len() > old(plan)@.len(),
{
    let days: usize = years as usize * 365;
    let ghost base = plan@.len() as int;
    let ghost orig = plan@;
    let mut offset: usize = draw_between(0, stride - 1);
    let ghost initial = offset as int;
    let mut i: usize = 0;
    while i < per
        invariant
            days == house_days(years),
            person_ids@.len() > 0,
            per >= 1,
            MIN_STRIDE <= stride <= house_days(years) + MIN_STRIDE,
            2 * house_days(years) + 2 * MIN_STRIDE <= usize::MAX,
            start.0 - 30 >= i32::MIN,
            start.0 + house_days(years) + MIN_STRIDE <= i32::MAX,
            base == orig.len(),
            i <= per,
            plan@.len() == base + i,
            initial < stride,
            offset == initial + i * stride,
            offset <= days + stride,
            forall|k: int| 0 <= k < base ==> plan@[k] == orig[k],
            forall|k: int|
                base <= k < plan@.len() ==> (#[trigger] plan@[k]).house_id == house_id
                    && well_formed_stay(plan@[k], person_ids@, start, years)
                    && plan@[k].to_date.0 < start.0 + offset,
            plan@.len() > base ==> plan@[base].from_date.0 - start.0 == initial,
            plan@.len() > base ==> plan@[plan@.len() - 1].from_date.0 == start.0 + offset - stride,
            forall|k: int|
                base < k < plan@.len() ==> (#[trigger] plan@[k]).from_date.0 - plan@[k
                    - 1].from_date.0 == stride,
            forall|a: int, b: int|
                base <= a < b < plan@.len() ==> (#[trigger] plan@[a]).to_date.0 < (
                #[trigger] plan@[b]).from_date.0,
        ensures
            plan@.len() == base + i,
            offset == initial + i * stride,
            i == per || offset + MAX_STAY > days,
            stride + MAX_STAY - 1 <= days ==> plan@.len() > base,
        decreases per - i,
    {
        let length = draw_between(MIN_STAY, MAX_STAY);
        if offset + length > days {
            proof {
                if i == 0 {
                    assert(i * stride == 0) by (nonlinear_arith)
                        requires
                            i == 0,
                    ;
                }
            }
            break;
        }
        let person_id = match choose_id(person_ids.as_slice()) {
            Some(p) => p,
            None => person_ids[0],
        };
        let payment = if draw_ratio(3, 5) {
            let days_before = draw_between(7, 30);
            let nightly = draw_between(120, 180);
            assert(stay_price(length as int, nightly as int) <= 14 * 180 * 100) by (nonlinear_arith)
                requires
                    length <= 14,
                    nightly <= 180,
            ;
            assert(stay_price(length as int, nightly as int) >= 0) by (nonlinear_arith)
                requires
                    length >= 3,
                    nightly >= 120,
            ;
            Some((days_before, nightly))
        } else {
            None
        };
        let b = planned_stay(house_id, person_id, start, offset, length, payment);
        proof {
            let len_int = b.to_date.0 - b.from_date.0 + 1;
            assert(len_int == length);
            if let Some((days_before, nightly)) = payment {
                assert(120 <= nightly <= 180 && b.total_paid->0 == stay_price(len_int, nightly as int));
            }
            assert(well_formed_stay(b, person_ids@, start, years));
        }
        let ghost before = plan@;
        plan.push(b);
        proof {
            assert forall|k: int| 0 <= k < base implies plan@[k] == orig[k] by {
                assert(plan@[k] == before[k]);
            }
            assert forall|k: int|
                base <= k < plan@.len() implies (#[trigger] plan@[k]).house_id == house_id
                    && well_formed_stay(plan@[k], person_ids@, start, years)
                    && plan@[k].to_date.0 < start.0 + offset + stride by {
                if k < plan@.len() - 1 {
                    assert(plan@[k] == before[k]);
                }
            }
            assert forall|k: int|
                base < k < plan@.len() implies (#[trigger] plan@[k]).from_date.0 - plan@[k
                    - 1].from_date.0 == stride by {
                if k < plan@.len() - 1 {
                    assert(plan@[k] == before[k]);
                    assert(plan@[k - 1] == before[k - 1]);
                } else {
                    assert(plan@[k - 1] == before[k - 1]);
                }
            }
            assert forall|a: int, c: int|
                base <= a < c < plan@.len() implies (#[trigger] plan@[a]).to_date.0 < (
                #[trigger] plan@[c]).from_date.0 by {
                assert(plan@[a] == before[a]);
                if c < plan@.len() - 1 {
                    assert(plan@[c] == before[c]);
                }
            }
            if i == 0 {
                assert(i * stride == 0) by (nonlinear_arith)
                    requires
                        i == 0,
                ;
                assert(plan@[base].from_date.0 - start.0 == initial);
            } else {
                assert(plan@[base] == before[base]);
            }
            assert(initial + (i + 1) * stride == initial + i * stride + stride) by (nonlinear_arith);
        }
        offset = offset + stride;
        i = i + 1;
    }
    proof {
        let len = plan@.len() as int;
        if len > base {
            if i == per {
                assert(offset - stride == initial + (per - 1) * stride) by (nonlinear_arith)
                    requires
                        offset == initial + i * stride,
                        i == per,
                ;
            }
            assert(run_ends_in_time(plan@[len - 1], start, years, per as int, stride as int));
        }
    }
}

/// Plans about `target` bookings over `years` years from `start`, spread
/// over the houses: house after house in the order given, each gets its
/// share of stays, one every `stride` days from a random first day, each 3
/// to 14 days long with a random person; 3 in 5 are paid. Stays of a house
/// are non-overlapping by construction, so the whole plan is free of
/// overlaps when each house is given once.
pub fn plan_bookings(
    house_ids: &Vec<i64>,
    person_ids: &Vec<i64>,
    start: Date,
    years: u32,
    target: usize,
) -> (plan: Vec<PlannedBooking>)
    requires
        house_ids@.len() > 0,
        person_ids@.len() > 0,
        2 * house_days(years) + 2 * MIN_STRIDE <= usize::MAX,
        start.0 - 30 >= i32::MIN,
        start.0 + house_days(years) + MIN_STRIDE <= i32::MAX,
    ensures
        forall|i: int|
            0 <= i < plan@.len() ==> well_planned(
                #[trigger] plan@[i],
                house_ids@,
                person_ids@,
                start,
                years,
            ),
        exists|owner: Seq<int>|
            #[trigger] grouped_by_house(
                plan@,
                house_ids@,
                owner,
                stays_per_house(target as int, house_ids@.len() as int),
                stay_stride(years, target as int, house_ids@.len() as int),
            ),
        house_ids@.no_duplicates() ==> no_overlap(plan@),
        plan@.len() <= house_ids@.len() * stays_per_house(target as int, house_ids@.len() as int),
        forall|k: int|
            0 <= k < plan@.len() && opens_house(plan@, k) ==> (#[trigger] plan@[k]).from_date.0
                - start.0 < stay_stride(years, target as int, house_ids@.len() as int),
        house_ids@.no_duplicates() ==> forall|k: int|
            0 < k < plan@.len() && !opens_house(plan@, k) ==> (#[trigger] plan@[k]).from_date.0
                - plan@[k - 1].from_date.0 == stay_stride(years, target as int, house_ids@.len() as int),
        forall|k: int|
            0 <= k < plan@.len() && ends_house_run(plan@, k) ==> run_ends_in_time(
                #[trigger] plan@[k],
                start,
                years,
                stays_per_house(target as int, house_ids@.len() as int),
                stay_stride(years, target as int, house_ids@.len() as int),
            ),
        stay_stride(years, target as int, house_ids@.len() as int) + MAX_STAY - 1 <= house_days(
            years,
        ) ==> forall|x: i64| #[trigger] house_ids@.contains(x) ==> plans_house(plan@, x),
{
    let days: usize = years as usize * 365;
    let houses: usize = house_ids.len();
    let q: usize = if target % houses == 0 {
        target / houses
    } else {
        assert(target / houses < usize::MAX) by (nonlinear_arith)
            requires
                target % houses != 0,
                houses > 0,
                target <= usize::MAX,
        ;
        target / houses + 1
    };
    let per: usize = if q < 1 {
        1
    } else {
        q
    };
    let s: usize = days / per;
    let stride: usize = if s < MIN_STRIDE {
        MIN_STRIDE
    } else {
        s
    };
    assert(per == stays_per_house(target as int, houses as int));
    assert(stride == stay_stride(years, target as int, houses as int));
    let mut plan: Vec<PlannedBooking> = Vec::new();
    let ghost mut owner: Seq<int> = Seq::empty();
    let mut h: usize = 0;
    while h < houses
        invariant
            houses == house_ids@.len(),
            days == house_days(years),
            MIN_STRIDE <= stride <= days + MIN_STRIDE,
            person_ids@.len() > 0,
            2 * house_days(years) + 2 * MIN_STRIDE <= usize::MAX,
            start.0 - 30 >= i32::MIN,
            start.0 + house_days(years) + MIN_STRIDE <= i32::MAX,
            h <= houses,
            per == stays_per_house(target as int, houses as int),
            stride == stay_stride(years, target as int, houses as int),
            per >= 1,
            plan@.len() <= h * per,
            forall|i: int|
                0 <= i < plan@.len() ==> well_planned(
                    #[trigger] plan@[i],
                    house_ids@,
                    person_ids@,
                    start,
                    years,
                ),
            grouped_by_house(plan@, house_ids@, owner, per as int, stride as int),
            forall|k: int| 0 <= k < owner.len() ==> #[trigger] owner[k] < h,
            forall|k: int|
                0 <= k < plan@.len() && (k == 0 || owner[k - 1] != owner[k]) ==> (#[trigger] plan@[
                    k
                ]).from_date.0 - start.0 < stride,
            forall|k: int|
                0 <= k < plan@.len() && (k == plan@.len() - 1 || owner[k + 1] != owner[k])
                    ==> run_ends_in_time(#[trigger] plan@[k], start, years, per as int, stride as int),
            stride + MAX_STAY - 1 <= days ==> forall|j: int|
                0 <= j < h ==> plans_house(plan@, #[trigger] house_ids@[j]),
        decreases houses - h,
    {
        let ghost before = plan@;
        let ghost owner0 = owner;
        plan_house_stays(&mut plan, house_ids[h], person_ids, start, years, per, stride);
        proof {
            let b = before.len() as int;
            let n = plan@.len() - b;
            owner = owner0 + Seq::new(n as nat, |x: int| h as int);
            lemma_pass_appended(before, plan@, house_ids@, owner0, owner, h as int, per as int,
                stride as int, person_ids@, start, years);
            if stride + MAX_STAY - 1 <= days {
                assert forall|j: int| 0 <= j < h + 1 implies plans_house(plan@, #[trigger] house_ids@[j]) by {
                    if j == h {
                        assert(plan@[b].house_id == house_ids@[h as int]);
                    } else {
                        lemma_plans_house_grows(before, plan@, house_ids@[j]);
                    }
                }
            }
            assert((h + 1) * per == h * per + per) by (nonlinear_arith);
        }
        h = h + 1;
    }
    proof {
        lemma_plan_facts(plan@, house_ids@, owner, per as int, stride as int, start, years);
        if stride + MAX_STAY - 1 <= days {
            assert forall|x: i64| #[trigger] house_ids@.contains(x) implies plans_house(plan@, x) by {
                let j = choose|j: int| 0 <= j < house_ids@.len() && house_ids@[j] == x;
                assert(plans_house(plan@, house_ids@[j]));
            }
        }
    }
    plan
}

proof fn lemma_plans_house_grows(before: Seq<PlannedBooking>, after: Seq<PlannedBooking>, x: i64)
    requires
        before.len() <= after.len(),
        forall|k: int| 0 <= k < before.len() ==> after[k] == before[k],
        plans_house(before, x),
    ensures
        plans_house(after, x),
{
    let k = choose|k: int| 0 <= k < before.len() && (#[trigger] before[k]).house_id == x;
    assert(after[k] == before[k]);
}

/// The facts of the plan kept while the houses are planned hold again once
/// the stays of house `h` are appended.
proof fn lemma_pass_appended(
    before: Seq<PlannedBooking>,
    plan: Seq<PlannedBooking>,
    house_ids: Seq<i64>,
    owner0: Seq<int>,
    owner: Seq<int>,
    h: int,
    per: int,
    stride: int,
    person_ids: Seq<i64>,
    start: Date,
    years: u32,
)
    requires
        0 <= h < house_ids.len(),
        per >= 1,
        grouped_by_house(before, house_ids, owner0, per, stride),
        forall|k: int| 0 <= k < owner0.len() ==> #[trigger] owner0[k] < h,
        forall|k: int|
            0 <= k < before.len() && (k == 0 || owner0[k - 1] != owner0[k]) ==> (
            #[trigger] before[k]).from_date.0 - start.0 < stride,
        forall|k: int|
            0 <= k < before.len() && (k == before.len() - 1 || owner0[k + 1] != owner0[k])
                ==> run_ends_in_time(#[trigger] before[k], start, years, per, stride),
        forall|i: int|
            0 <= i < before.len() ==> well_planned(#[trigger] before[i], house_ids, person_ids, start, years),
        before.len() <= plan.len() <= before.len() + per,
        forall|k: int| 0 <= k < before.len() ==> plan[k] == before[k],
        forall|k: int|
            before.len() <= k < plan.len() ==> (#[trigger] plan[k]).house_id == house_ids[h]
                && well_formed_stay(plan[k], person_ids, start, years),
        plan.len() > before.len() ==> plan[before.len() as int].from_date.0 - start.0 < stride,
        forall|k: int|
            before.len() < k < plan.len() ==> (#[trigger] plan[k]).from_date.0 - plan[k - 1].from_date.0
                == stride,
        forall|i: int, j: int|
            before.len() <= i < j < plan.len() ==> (#[trigger] plan[i]).to_date.0 < (
            #[trigger] plan[j]).from_date.0,
        plan.len() > before.len() ==> run_ends_in_time(plan[plan.len() - 1], start, years, per, stride),
        owner == owner0 + Seq::new((plan.len() - before.len()) as nat, |x: int| h),
    ensures
        grouped_by_house(plan, house_ids, owner, per, stride),
        forall|k: int| 0 <= k < owner.len() ==> #[trigger] owner[k] < h + 1,
        forall|k: int|
            0 <= k < plan.len() && (k == 0 || owner[k - 1] != owner[k]) ==> (#[trigger] plan[
                k
            ]).from_date.0 - start.0 < stride,
        forall|k: int|
            0 <= k < plan.len() && (k == plan.len() - 1 || owner[k + 1] != owner[k])
                ==> run_ends_in_time(#[trigger] plan[k], start, years, per, stride),
        forall|i: int|
            0 <= i < plan.len() ==> well_planned(#[trigger] plan[i], house_ids, person_ids, start, years),
{
    let b = before.len() as int;
    assert(owner.len() == plan.len());
    assert forall|k: int| 0 <= k < owner.len() implies #[trigger] owner[k] == (if k < b {
        owner0[k]
    } else {
        h
    }) by {}
    assert forall|k: int| 0 <= k < plan.len() implies 0 <= #[trigger] owner[k] < house_ids.len()
        && plan[k].house_id == house_ids[owner[k]] by {
        if k < b {
            assert(owner[k] == owner0[k]);
        } else {
            assert(owner[k] == h);
        }
    }
    assert forall|i: int, j: int| 0 <= i <= j < plan.len() implies #[trigger] owner[i]
        <= #[trigger] owner[j] by {
        assert(owner[i] == (if i < b { owner0[i] } else { h }));
        assert(owner[j] == (if j < b { owner0[j] } else { h }));
        if j < b {
            assert(owner0[i] <= owner0[j]);
        } else if i < b {
            assert(owner0[i] < h);
        }
    }
    assert forall|i: int, j: int|
        0 <= i < j < plan.len() && #[trigger] owner[i] == #[trigger] owner[j] implies j - i < per
            && plan[i].to_date.0 < plan[j].from_date.0 by {
        assert(owner[i] == (if i < b { owner0[i] } else { h }));
        assert(owner[j] == (if j < b { owner0[j] } else { h }));
        if j < b {
            assert(owner0[i] == owner0[j]);
            assert(plan[i] == before[i] && plan[j] == before[j]);
        } else if i < b {
            assert(owner0[i] < h);
        }
    }
    assert forall|k: int| 0 < k < plan.len() && owner[k - 1] == #[trigger] owner[k] implies plan[
        k
    ].from_date.0 - plan[k - 1].from_date.0 == stride by {
        assert(owner[k - 1] == (if k - 1 < b { owner0[k - 1] } else { h }));
        assert(owner[k] == (if k < b { owner0[k] } else { h }));
        if k < b {
            assert(owner0[k - 1] == owner0[k]);
            assert(plan[k] == before[k] && plan[k - 1] == before[k - 1]);
        } else if k - 1 < b {
            assert(owner0[k - 1] < h);
        }
    }
    assert forall|k: int| 0 <= k < owner.len() implies #[trigger] owner[k] < h + 1 by {
        assert(owner[k] == (if k < b { owner0[k] } else { h }));
    }
    assert forall|k: int|
        0 <= k < plan.len() && (k == 0 || owner[k - 1] != owner[k]) implies (#[trigger] plan[
            k
        ]).from_date.0 - start.0 < stride by {
        assert(owner[k] == (if k < b { owner0[k] } else { h }));
        if k > 0 {
            assert(owner[k - 1] == (if k - 1 < b { owner0[k - 1] } else { h }));
        }
        if k < b {
            assert(plan[k] == before[k]);
        }
    }
    assert forall|k: int|
        0 <= k < plan.len() && (k == plan.len() - 1 || owner[k + 1] != owner[k]) implies run_ends_in_time(
            #[trigger] plan[k],
            start,
            years,
            per,
            stride,
        ) by {
        assert(owner[k] == (if k < b { owner0[k] } else { h }));
        if k + 1 < plan.len() {
            assert(owner[k + 1] == (if k + 1 < b { owner0[k + 1] } else { h }));
        }
        if k < b {
            assert(plan[k] == before[k]);
        }
    }
    assert forall|i: int| 0 <= i < plan.len() implies well_planned(
        #[trigger] plan[i],
        house_ids,
        person_ids,
        start,
        years,
    ) by {
        if i < b {
            assert(plan[i] == before[i]);
        } else {
            assert(house_ids.contains(house_ids[h]));
        }
    }
}

/// What the finished plan states, from the facts kept while planning.
proof fn lemma_plan_facts(
    plan: Seq<PlannedBooking>,
    house_ids: Seq<i64>,
    owner: Seq<int>,
    per: int,
    stride: int,
    start: Date,
    years: u32,
)
    requires
        grouped_by_house(plan, house_ids, owner, per, stride),
        forall|k: int|
            0 <= k < plan.len() && (k == 0 || owner[k - 1] != owner[k]) ==> (#[trigger] plan[
                k
            ]).from_date.0 - start.0 < stride,
        forall|k: int|
            0 <= k < plan.len() && (k == plan.len() - 1 || owner[k + 1] != owner[k])
                ==> run_ends_in_time(#[trigger] plan[k], start, years, per, stride),
    ensures
        exists|o: Seq<int>| #[trigger] grouped_by_house(plan, house_ids, o, per, stride),
        house_ids.no_duplicates() ==> no_overlap(plan),
        forall|k: int|
            0 <= k < plan.len() && opens_house(plan, k) ==> (#[trigger] plan[k]).from_date.0 - start.0
                < stride,
        house_ids.no_duplicates() ==> forall|k: int|
            0 < k < plan.len() && !opens_house(plan, k) ==> (#[trigger] plan[k]).from_date.0
                - plan[k - 1].from_date.0 == stride,
        forall|k: int|
            0 <= k < plan.len() && ends_house_run(plan, k) ==> run_ends_in_time(
                #[trigger] plan[k],
                start,
                years,
                per,
                stride,
            ),
{
    assert forall|k: int| 0 <= k < plan.len() && opens_house(plan, k) implies (#[trigger] plan[
        k
    ]).from_date.0 - start.0 < stride by {
        if k > 0 {
            assert(0 <= owner[k - 1] < house_ids.len());
            assert(0 <= owner[k] < house_ids.len());
            if owner[k - 1] == owner[k] {
                assert(plan[k - 1].house_id == plan[k].house_id);
            }
        }
    }
    assert forall|k: int|
        0 <= k < plan.len() && ends_house_run(plan, k) implies run_ends_in_time(
            #[trigger] plan[k],
            start,
            years,
            per,
            stride,
        ) by {
        if k + 1 < plan.len() {
            assert(0 <= owner[k + 1] < house_ids.len());
            assert(0 <= owner[k] < house_ids.len());
            if owner[k + 1] == owner[k] {
                assert(plan[k + 1].house_id == plan[k].house_id);
            }
        }
    }
    if house_ids.no_duplicates() {
        assert forall|i: int, j: int|
            0 <= i < j < plan.len() && plan[i].house_id == plan[j].house_id implies plan[i].to_date.0
                < plan[j].from_date.0 by {
            assert(0 <= owner[i] < house_ids.len());
            assert(0 <= owner[j] < house_ids.len());
            assert(house_ids[owner[i]] == house_ids[owner[j]]);
            assert(owner[i] == owner[j]);
        }
        assert forall|k: int|
            0 < k < plan.len() && !opens_house(plan, k) implies (#[trigger] plan[k]).from_date.0
                - plan[k - 1].from_date.0 == stride by {
            assert(0 <= owner[k - 1] < house_ids.len());
            assert(0 <= owner[k] < house_ids.len());
            assert(house_ids[owner[k - 1]] == house_ids[owner[k]]);
            assert(owner[k - 1] == owner[k]);
        }
    }
}

} // verus!
