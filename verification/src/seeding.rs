//! Planning of the data seeder: which load steps run, how many rows each
//! inserts, and the binary rows of the calendar bulk copy.

use vstd::prelude::*;

use crate::chance::draw_between;

use crate::models::Date;

verus! {

/// One step of the load, in dependency order.
#[derive(Clone, Copy, Debug, PartialEq, Eq, Structural)]
pub enum Step {
    Countries,
    Managers,
    Persons,
    Addresses,
    Houses,
}

/// Every step, in the order the load runs them.
pub open spec fn all_steps() -> Seq<Step> {
    seq![Step::Countries, Step::Managers, Step::Persons, Step::Addresses, Step::Houses]
}

/// Every step, in the order the load runs them.
pub fn all_steps_in_order() -> (v: Vec<Step>)
    ensures
        v@ == all_steps(),
{
    let v = vec![Step::Countries, Step::Managers, Step::Persons, Step::Addresses, Step::Houses];
    assert(v@ =~= all_steps());
    v
}

/// A set of steps.
#[derive(Clone, Copy, Debug, PartialEq, Eq, Structural)]
pub struct StepSet {
    pub countries: bool,
    pub managers: bool,
    pub persons: bool,
    pub addresses: bool,
    pub houses: bool,
}

impl StepSet {
    /// Whether the set holds a step.
    pub open spec fn has(self, s: Step) -> bool {
        match s {
            Step::Countries => self.countries,
            Step::Managers => self.managers,
            Step::Persons => self.persons,
            Step::Addresses => self.addresses,
            Step::Houses => self.houses,
        }
    }

    /// The empty set.
    pub fn empty() -> (r: StepSet)
        ensures
            forall|s: Step| !r.has(s),
    {
        StepSet { countries: false, managers: false, persons: false, addresses: false, houses: false }
    }

    /// Whether the set holds a step.
    pub fn contains(&self, s: Step) -> (r: bool)
        ensures
            r == self.has(s),
    {
        match s {
            Step::Countries => self.countries,
            Step::Managers => self.managers,
            Step::Persons => self.persons,
            Step::Addresses => self.addresses,
            Step::Houses => self.houses,
        }
    }

    /// Adds a step.
    pub fn insert(&mut self, s: Step)
        ensures
            forall|t: Step| final(self).has(t) == (old(self).has(t) || t == s),
    {
        match s {
            Step::Countries => self.countries = true,
            Step::Managers => self.managers = true,
            Step::Persons => self.persons = true,
            Step::Addresses => self.addresses = true,
            Step::Houses => self.houses = true,
        }
    }
}

/// Whether a list names a step.
pub fn names_step(list: &Vec<Step>, s: Step) -> (r: bool)
    ensures
        r == list@.contains(s),
{
    let mut i: usize = 0;
    while i < list.len()
        invariant
            i <= list.len(),
            forall|j: int| 0 <= j < i ==> list@[j] != s,
        decreases list.len() - i,
    {
        if list[i] == s {
            return true;
        }
        i = i + 1;
    }
    false
}

/// The steps a load runs: those named by `only` when it names any, else
/// every step that `skip` does not name.
pub fn select_steps(only: &Vec<Step>, skip: &Vec<Step>) -> (r: StepSet)
    ensures
        only@.len() > 0 ==> forall|s: Step| r.has(s) == only@.contains(s),
        only@.len() == 0 ==> forall|s: Step| r.has(s) == !skip@.contains(s),
{
    let mut r = StepSet::empty();
    if only.len() > 0 {
        let mut i: usize = 0;
        while i < only.len()
            invariant
                i <= only.len(),
                forall|s: Step| r.has(s) == (exists|j: int| 0 <= j < i && only@[j] == s),
            decreases only.len() - i,
        {
            r.insert(only[i]);
            proof {
                assert forall|s: Step| r.has(s) == (exists|j: int| 0 <= j < i + 1 && only@[j] == s) by {
                    if s == only@[i as int] {
                        assert(0 <= i < i + 1 && only@[i as int] == s);
                    }
                }
            }
            i = i + 1;
        }
    } else {
        let all = all_steps_in_order();
        let mut i: usize = 0;
        while i < all.len()
            invariant
                all@ == all_steps(),
                i <= all.len(),
                forall|s: Step| r.has(s) == (exists|j: int| 0 <= j < i && all@[j] == s && !skip@.contains(s)),
            decreases all.len() - i,
        {
            if !names_step(skip, all[i]) {
                r.insert(all[i]);
            }
            proof {
                assert forall|s: Step| r.has(s) == (exists|j: int| 0 <= j < i + 1 && all@[j] == s && !skip@.contains(s)) by {
                    if s == all@[i as int] && !skip@.contains(s) {
                        assert(0 <= i < i + 1 && all@[i as int] == s);
                    }
                }
            }
            i = i + 1;
        }
        proof {
            assert forall|s: Step| r.has(s) == !skip@.contains(s) by {
                let j: int = match s {
                    Step::Countries => 0,
                    Step::Managers => 1,
                    Step::Persons => 2,
                    Step::Addresses => 3,
                    Step::Houses => 4,
                };
                assert(all@[j] == s);
            }
        }
    }
    r
}

/// The steps of a set, in the order the load runs them.
pub fn sorted_steps(steps: &StepSet) -> (v: Vec<Step>)
    ensures
        forall|i: int, j: int| 0 <= i < j < v@.len() ==> step_rank(v@[i]) < step_rank(v@[j]),
        forall|s: Step| v@.contains(s) <==> steps.has(s),
{
    let all = all_steps_in_order();
    let mut v: Vec<Step> = Vec::new();
    let mut i: usize = 0;
    while i < all.len()
        invariant
            all@ == all_steps(),
            i <= all.len(),
            forall|k: int| 0 <= k < v@.len() ==> step_rank(#[trigger] v@[k]) < i,
            forall|a: int, b: int| 0 <= a < b < v@.len() ==> step_rank(v@[a]) < step_rank(v@[b]),
            forall|s: Step| v@.contains(s) <==> (steps.has(s) && step_rank(s) < i),
        decreases all.len() - i,
    {
        let s = all[i];
        assert(step_rank(s) == i);
        if steps.contains(s) {
            let ghost before = v@;
            v.push(s);
            proof {
                assert forall|t: Step| v@.contains(t) <==> (steps.has(t) && step_rank(t) < i + 1) by {
                    if v@.contains(t) && t != s {
                        let k = choose|k: int| 0 <= k < v@.len() && v@[k] == t;
                        assert(before[k] == t);
                    }
                    if steps.has(t) && step_rank(t) < i + 1 && t != s {
                        assert(before.contains(t));
                        let k = choose|k: int| 0 <= k < before.len() && before[k] == t;
                        assert(v@[k] == t);
                    }
                    if t == s {
                        assert(v@[v@.len() - 1] == s);
                    }
                }
            }
        }
        i = i + 1;
    }
    v
}

/// The position of a step in the load order.
pub open spec fn step_rank(s: Step) -> int {
    match s {
        Step::Countries => 0,
        Step::Managers => 1,
        Step::Persons => 2,
        Step::Addresses => 3,
        Step::Houses => 4,
    }
}

/// Row counts of a load.
#[derive(Clone, Copy, Debug, PartialEq, Eq, Structural)]
pub struct LoadVolumes {
    pub managers: usize,
    pub persons: usize,
    pub addresses: usize,
    pub houses: usize,
}

/// The row counts of a load: each given count wins over the preset, which
/// is 10 managers, 100 persons, 50 addresses and 50 houses for a small load
/// and 1 000, 100 000, 10 000 and 10 000 otherwise.
pub fn resolve_volumes(
    small: bool,
    managers: Option<usize>,
    persons: Option<usize>,
    addresses: Option<usize>,
    houses: Option<usize>,
) -> (v: LoadVolumes)
    ensures
        v.managers == (match managers {
            Some(n) => n,
            None => if small {
                10
            } else {
                1_000
            },
        }),
        v.persons == (match persons {
            Some(n) => n,
            None => if small {
                100
            } else {
                100_000
            },
        }),
        v.addresses == (match addresses {
            Some(n) => n,
            None => if small {
                50
            } else {
                10_000
            },
        }),
        v.houses == (match houses {
            Some(n) => n,
            None => if small {
                50
            } else {
                10_000
            },
        }),
{
    let (def_managers, def_persons, def_addresses, def_houses): (usize, usize, usize, usize) =
        if small {
        (10, 100, 50, 50)
    } else {
        (1_000, 100_000, 10_000, 10_000)
    };
    LoadVolumes {
        managers: match managers {
            Some(n) => n,
            None => def_managers,
        },
        persons: match persons {
            Some(n) => n,
            None => def_persons,
        },
        addresses: match addresses {
            Some(n) => n,
            None => def_addresses,
        },
        houses: match houses {
            Some(n) => n,
            None => def_houses,
        },
    }
}

/// The two bytes of a 16-bit value, most significant first.
pub open spec fn be16(x: u16) -> Seq<u8> {
    seq![(x >> 8u16) as u8, (x & 0xffu16) as u8]
}

/// The four bytes of a 32-bit value, most significant first.
pub open spec fn be32(x: u32) -> Seq<u8> {
    seq![(x >> 24u32) as u8, ((x >> 16u32) & 0xffu32) as u8, ((x >> 8u32) & 0xffu32) as u8, (x & 0xffu32) as u8]
}

/// The eight bytes of a 64-bit value, most significant first.
pub open spec fn be64(x: u64) -> Seq<u8> {
    be32((x >> 32u64) as u32) + be32((x & 0xffff_ffffu64) as u32)
}

fn push_be16(buf: &mut Vec<u8>, x: u16)
    ensures
        final(buf)@ == old(buf)@ + be16(x),
{
    buf.push((x >> 8u16) as u8);
    buf.push((x & 0xffu16) as u8);
    assert(buf@ =~= old(buf)@ + be16(x));
}

fn push_be32(buf: &mut Vec<u8>, x: u32)
    ensures
        final(buf)@ == old(buf)@ + be32(x),
{
    buf.push((x >> 24u32) as u8);
    buf.push(((x >> 16u32) & 0xffu32) as u8);
    buf.push(((x >> 8u32) & 0xffu32) as u8);
    buf.push((x & 0xffu32) as u8);
    assert(buf@ =~= old(buf)@ + be32(x));
}

fn push_be64(buf: &mut Vec<u8>, x: u64)
    ensures
        final(buf)@ == old(buf)@ + be64(x),
{
    push_be32(buf, (x >> 32u64) as u32);
    push_be32(buf, (x & 0xffff_ffffu64) as u32);
    assert(buf@ =~= old(buf)@ + be64(x));
}

/// The binary NUMERIC value of a whole-dollar amount with two decimals:
/// one base-10000 digit, weight 0, positive sign, display scale 2, and the
/// amount as the digit (as a 16-bit value).
pub open spec fn numeric_dollars(price_dollars: i32) -> Seq<u8> {
    be16(1) + be16(0) + be16(0) + be16(2) + be16(price_dollars as i16 as u16)
}

/// Encodes a whole-dollar amount (meant for 1..=9999) as a binary NUMERIC
/// with display scale 2, so it reads "150.00" and the like.
pub fn encode_numeric_dollars(price_dollars: i32) -> (buf: Vec<u8>)
    ensures
        buf@ == numeric_dollars(price_dollars),
        buf@.len() == 10,
{
    let mut buf: Vec<u8> = Vec::new();
    push_be16(&mut buf, 1);
    push_be16(&mut buf, 0);
    push_be16(&mut buf, 0);
    push_be16(&mut buf, 2);
    push_be16(&mut buf, price_dollars as i16 as u16);
    assert(buf@ =~= numeric_dollars(price_dollars));
    buf
}

/// The nightly prices a seeded house can have: $50 to $300 in steps of $10,
/// each as binary NUMERIC.
pub fn price_pool() -> (pool: Vec<Vec<u8>>)
    ensures
        pool@.len() == 26,
        forall|i: int| 0 <= i < 26 ==> (#[trigger] pool@[i])@ == numeric_dollars((50 + 10 * i) as i32),
{
    let mut pool: Vec<Vec<u8>> = Vec::new();
    let mut dollars: i32 = 50;
    while dollars <= 300
        invariant
            50 <= dollars <= 310,
            (dollars - 50) % 10 == 0,
            pool@.len() == (dollars - 50) / 10,
            forall|i: int| 0 <= i < pool@.len() ==> (#[trigger] pool@[i])@ == numeric_dollars((50 + 10 * i) as i32),
        decreases 310 - dollars,
    {
        pool.push(encode_numeric_dollars(dollars));
        dollars = dollars + 10;
    }
    pool
}

/// The header of a binary COPY stream: the 11-byte signature, zero flags
/// and a zero-length header extension.
pub open spec fn copy_header_bytes() -> Seq<u8> {
    seq![0x50u8, 0x47u8, 0x43u8, 0x4fu8, 0x50u8, 0x59u8, 0x0au8, 0xffu8, 0x0du8, 0x0au8, 0x00u8]
        + seq![0u8, 0u8, 0u8, 0u8] + seq![0u8, 0u8, 0u8, 0u8]
}

/// Appends the header of a binary COPY stream.
pub fn push_copy_header(buf: &mut Vec<u8>)
    ensures
        final(buf)@ == old(buf)@ + copy_header_bytes(),
{
    let sig: [u8; 11] = [0x50, 0x47, 0x43, 0x4f, 0x50, 0x59, 0x0a, 0xff, 0x0d, 0x0a, 0x00];
    let mut i: usize = 0;
    while i < 11
        invariant
            i <= 11,
            buf@ == old(buf)@ + sig@.subrange(0, i as int),
        decreases 11 - i,
    {
        buf.push(sig[i]);
        assert(sig@.subrange(0, i + 1) =~= sig@.subrange(0, i as int).push(sig@[i as int]));
        i = i + 1;
    }
    push_be32(buf, 0);
    push_be32(buf, 0);
    assert((0u32 >> 24u32) as u8 == 0u8 && ((0u32 >> 16u32) & 0xffu32) as u8 == 0u8 && ((0u32
        >> 8u32) & 0xffu32) as u8 == 0u8 && (0u32 & 0xffu32) as u8 == 0u8) by (bit_vector);
    assert(be32(0) =~= seq![0u8, 0u8, 0u8, 0u8]);
    assert(sig@.subrange(0, 11) =~= seq![0x50u8, 0x47u8, 0x43u8, 0x4fu8, 0x50u8, 0x59u8, 0x0au8, 0xffu8, 0x0du8, 0x0au8, 0x00u8]);
    assert(buf@ =~= old(buf)@ + copy_header_bytes());
}

/// The trailer of a binary COPY stream: a field count of -1.
pub fn push_copy_trailer(buf: &mut Vec<u8>)
    ensures
        final(buf)@ == old(buf)@ + be16(0xffff),
{
    push_be16(buf, 0xffff);
}

/// The bytes of one calendar row of the bulk copy: four fields, each with
/// its length: the house id (8 bytes), the day (4 bytes, days since
/// 2000-01-01), the status label and the price as binary NUMERIC.
pub open spec fn calendar_row_bytes(house_id: i64, pg_date: i32, status: Seq<u8>, price: Seq<u8>) -> Seq<u8> {
    be16(4) + be32(8) + be64(house_id as u64) + be32(4) + be32(pg_date as u32) + be32(
        status.len() as u32,
    ) + status + be32(price.len() as u32) + price
}

fn push_bytes(buf: &mut Vec<u8>, bytes: &[u8])
    ensures
        final(buf)@ == old(buf)@ + bytes@,
{
    let mut i: usize = 0;
    while i < bytes.len()
        invariant
            i <= bytes.len(),
            buf@ == old(buf)@ + bytes@.subrange(0, i as int),
        decreases bytes.len() - i,
    {
        buf.push(bytes[i]);
        assert(bytes@.subrange(0, i + 1) =~= bytes@.subrange(0, i as int).push(bytes@[i as int]));
        i = i + 1;
    }
    assert(bytes@.subrange(0, bytes.len() as int) =~= bytes@);
}

/// Appends one calendar row of the bulk copy.
pub fn push_calendar_row(buf: &mut Vec<u8>, house_id: i64, pg_date: i32, status: &[u8], price: &[u8])
    requires
        status@.len() <= i32::MAX,
        price@.len() <= i32::MAX,
    ensures
        final(buf)@ == old(buf)@ + calendar_row_bytes(house_id, pg_date, status@, price@),
{
    push_be16(buf, 4);
    push_be32(buf, 8);
    push_be64(buf, house_id as u64);
    push_be32(buf, 4);
    push_be32(buf, pg_date as u32);
    push_be32(buf, status.len() as u32);
    push_bytes(buf, status);
    push_be32(buf, price.len() as u32);
    push_bytes(buf, price);
    assert(buf@ =~= old(buf)@ + calendar_row_bytes(house_id, pg_date, status@, price@));
}

/// The day number of 2000-01-01, where the database counts dates from.
pub const PG_EPOCH: i32 = 730120;

/// The database day of a date: days since 2000-01-01.
pub fn pg_day(date: Date) -> (d: i32)
    requires
        date.0 >= i32::MIN + PG_EPOCH,
    ensures
        d == date.0 - PG_EPOCH,
{
    date.0 - PG_EPOCH
}

/// The status label of a seeded calendar day, as the bulk copy sends it.
pub open spec fn rentable_label() -> Seq<u8> {
    seq![0x52u8, 0x65u8, 0x6eu8, 0x74u8, 0x61u8, 0x62u8, 0x6cu8, 0x65u8]
}

/// The calendar rows of one house for `n` consecutive days from database
/// day `first`, all rentable at one price.
pub open spec fn house_rows_bytes(house_id: i64, first: int, n: nat, price: Seq<u8>) -> Seq<u8>
    decreases n,
{
    if n == 0 {
        Seq::empty()
    } else {
        house_rows_bytes(house_id, first, (n - 1) as nat, price) + calendar_row_bytes(
            house_id,
            (first + n - 1) as i32,
            rentable_label(),
            price,
        )
    }
}

/// The number of calendar days seeded per house for a number of years.
pub open spec fn seeded_days(years: u32) -> int {
    years * 365
}

/// Appends the rentable calendar rows of one house for `days` consecutive
/// days from database day `first_pg_date`, each at the given price.
pub fn push_house_calendar(buf: &mut Vec<u8>, house_id: i64, first_pg_date: i32, days: u64, price: &[u8])
    requires
        first_pg_date + days - 1 <= i32::MAX,
        price@.len() <= i32::MAX,
    ensures
        final(buf)@ == old(buf)@ + house_rows_bytes(house_id, first_pg_date as int, days as nat, price@),
{
    let label: [u8; 8] = [0x52, 0x65, 0x6e, 0x74, 0x61, 0x62, 0x6c, 0x65];
    assert(label@ =~= rentable_label());
    let mut offset: u64 = 0;
    while offset < days
        invariant
            offset <= days,
            first_pg_date + days - 1 <= i32::MAX,
            price@.len() <= i32::MAX,
            label@ == rentable_label(),
            buf@ == old(buf)@ + house_rows_bytes(house_id, first_pg_date as int, offset as nat, price@),
        decreases days - offset,
    {
        let pg_date: i32 = (first_pg_date as i64 + offset as i64) as i32;
        push_calendar_row(buf, house_id, pg_date, &label, price);
        assert(house_rows_bytes(house_id, first_pg_date as int, (offset + 1) as nat, price@)
            == house_rows_bytes(house_id, first_pg_date as int, offset as nat, price@)
            + calendar_row_bytes(house_id, pg_date, rentable_label(), price@));
        assert(buf@ =~= old(buf)@ + house_rows_bytes(house_id, first_pg_date as int, (offset + 1) as nat, price@));
        offset = offset + 1;
    }
}

/// A random entry of a non-empty price pool, by its index.
pub fn pick_price(pool: &Vec<Vec<u8>>) -> (i: usize)
    requires
        pool.len() > 0,
    ensures
        i < pool.len(),
{
    draw_between(0, pool.len() - 1)
}

} // verus!
