use chrono::{Datelike, NaiveDate};
use rental_api::models::{CreateCountryRequest, Date};
use rental_api::seed_rows::{seed_countries, capitalize, house_name, manager_email, plan_address_rows, plan_house_rows, plan_manager_rows};
use rental_api::seeding::{
    encode_numeric_dollars, pg_day, pick_price, price_pool, push_calendar_row, push_copy_header,
    push_copy_trailer, push_house_calendar, resolve_volumes, select_steps, sorted_steps, Step, StepSet,
    PG_EPOCH,
};
use rental_api::stays::{check_booking_seed, plan_bookings, planned_stay, MAX_STAY, MIN_STAY};

fn d(s: &str) -> Date {
    Date(NaiveDate::parse_from_str(s, "%Y-%m-%d").unwrap().num_days_from_ce())
}

#[test]
fn numeric_dollars_encoding() {
    assert_eq!(encode_numeric_dollars(150), vec![0, 1, 0, 0, 0, 0, 0, 2, 0, 150]);
    assert_eq!(encode_numeric_dollars(300), vec![0, 1, 0, 0, 0, 0, 0, 2, 1, 44]);
    assert_eq!(encode_numeric_dollars(9999), vec![0, 1, 0, 0, 0, 0, 0, 2, 0x27, 0x0f]);
}

#[test]
fn price_pool_holds_fifty_to_three_hundred() {
    let pool = price_pool();
    assert_eq!(pool.len(), 26);
    assert_eq!(pool[0], encode_numeric_dollars(50));
    assert_eq!(pool[10], encode_numeric_dollars(150));
    assert_eq!(pool[25], encode_numeric_dollars(300));
    for _ in 0..50 {
        assert!(pick_price(&pool) < 26);
    }
}

#[test]
fn copy_stream_framing() {
    let mut buf = Vec::new();
    push_copy_header(&mut buf);
    assert_eq!(buf, b"PGCOPY\n\xFF\r\n\0\0\0\0\0\0\0\0\0".to_vec());
    let mut t = Vec::new();
    push_copy_trailer(&mut t);
    assert_eq!(t, (-1i16).to_be_bytes().to_vec());
}

#[test]
fn calendar_row_layout() {
    let price = encode_numeric_dollars(150);
    let mut buf = Vec::new();
    push_calendar_row(&mut buf, 7, 9131, b"Rentable", &price);
    let mut expected = Vec::new();
    expected.extend_from_slice(&4i16.to_be_bytes());
    expected.extend_from_slice(&8i32.to_be_bytes());
    expected.extend_from_slice(&7i64.to_be_bytes());
    expected.extend_from_slice(&4i32.to_be_bytes());
    expected.extend_from_slice(&9131i32.to_be_bytes());
    expected.extend_from_slice(&8i32.to_be_bytes());
    expected.extend_from_slice(b"Rentable");
    expected.extend_from_slice(&10i32.to_be_bytes());
    expected.extend_from_slice(&price);
    assert_eq!(buf, expected);
}

#[test]
fn house_calendar_rows_follow_day_by_day() {
    let price = encode_numeric_dollars(120);
    let mut buf = Vec::new();
    push_house_calendar(&mut buf, 3, 9131, 3, &price);
    let mut expected = Vec::new();
    for day in 9131..9134 {
        push_calendar_row(&mut expected, 3, day, b"Rentable", &price);
    }
    assert_eq!(buf, expected);
    let mut empty = Vec::new();
    push_house_calendar(&mut empty, 3, 9131, 0, &price);
    assert!(empty.is_empty());
}

#[test]
fn database_days_count_from_2000() {
    assert_eq!(NaiveDate::from_ymd_opt(2000, 1, 1).unwrap().num_days_from_ce(), PG_EPOCH);
    assert_eq!(pg_day(d("2000-01-01")), 0);
    assert_eq!(pg_day(d("2025-01-01")), 9132);
    assert_eq!(pg_day(d("1999-12-31")), -1);
}

#[test]
fn volumes_prefer_flags_over_presets() {
    let v = resolve_volumes(false, None, None, None, None);
    assert_eq!((v.managers, v.persons, v.addresses, v.houses), (1_000, 100_000, 10_000, 10_000));
    let v = resolve_volumes(true, None, None, None, None);
    assert_eq!((v.managers, v.persons, v.addresses, v.houses), (10, 100, 50, 50));
    let v = resolve_volumes(true, Some(3), None, Some(0), None);
    assert_eq!((v.managers, v.persons, v.addresses, v.houses), (3, 100, 0, 50));
}

#[test]
fn steps_follow_only_or_skip() {
    let only = select_steps(&vec![Step::Houses, Step::Countries], &vec![]);
    assert_eq!(sorted_steps(&only), vec![Step::Countries, Step::Houses]);
    let skip = select_steps(&vec![], &vec![Step::Persons]);
    assert_eq!(sorted_steps(&skip), vec![Step::Countries, Step::Managers, Step::Addresses, Step::Houses]);
    let all = select_steps(&vec![], &vec![]);
    assert_eq!(all.contains(Step::Persons), true);
    assert_eq!(sorted_steps(&all).len(), 5);
    assert!(sorted_steps(&StepSet::empty()).is_empty());
}

#[test]
fn sorted_steps_lists_in_load_order() {
    let mut s = StepSet::empty();
    s.insert(Step::Addresses);
    s.insert(Step::Managers);
    assert_eq!(sorted_steps(&s), vec![Step::Managers, Step::Addresses]);
}

#[test]
fn capitalize_first_character() {
    assert_eq!(capitalize("sunny"), "Sunny");
    assert_eq!(capitalize(""), "");
    assert_eq!(capitalize("élan"), "Élan");
    assert_eq!(capitalize("ßa"), "SSa");
    assert_eq!(house_name("breeze"), "Villa Breeze");
    assert_eq!(capitalize("villa"), "Villa");
    assert_eq!(capitalize("Villa"), "Villa");
    assert_eq!(capitalize("1st"), "1st");
    let once = capitalize("harbour");
    assert_eq!(once.len(), "harbour".len());
    assert_eq!(capitalize(&once), once);
}

#[test]
fn manager_emails_are_numbered_and_lower_case() {
    assert_eq!(manager_email("Ada", "LOVELACE", 7), "ada.lovelace.7@managers.example.com");
    assert_ne!(manager_email("x", "y", 12), manager_email("x", "y.1", 2));
    assert_ne!(manager_email("x.1", "y", 2), manager_email("x", "1.y", 20));
    let rows = plan_manager_rows(0, 3);
    assert_eq!(rows.len(), 3);
    for (k, r) in rows.iter().enumerate() {
        let expected = format!("{}.{}.{}@managers.example.com", r.first_name.to_lowercase(), r.last_name.to_lowercase(), k);
        assert_eq!(r.email, expected);
    }
}

#[test]
fn address_and_house_rows_draw_from_the_given_ids() {
    assert_eq!(plan_address_rows(2, &vec![]).unwrap_err(), "addresses.seed needs at least one country");
    let rows = plan_address_rows(20, &vec![4, 5]).unwrap();
    assert_eq!(rows.len(), 20);
    assert!(rows.iter().all(|r| r.country_id == 4 || r.country_id == 5));
    assert_eq!(plan_house_rows(1, &vec![], &vec![1]).unwrap_err(), "houses.seed needs at least one address");
    assert_eq!(plan_house_rows(1, &vec![1], &vec![]).unwrap_err(), "houses.seed needs at least one manager");
    let houses = plan_house_rows(10, &vec![8], &vec![9]).unwrap();
    assert_eq!(houses.len(), 10);
    assert!(houses.iter().all(|h| h.address_id == 8 && h.manager_id == 9 && h.name.starts_with("Villa ")));
}

#[test]
fn planned_bookings_stay_in_range_and_do_not_overlap() {
    let start = d("2025-01-01");
    let houses = vec![1, 2, 3];
    let persons = vec![10, 11];
    let plan = plan_bookings(&houses, &persons, start, 1, 60);
    assert!(!plan.is_empty());
    for b in &plan {
        let len = (b.to_date.0 - b.from_date.0 + 1) as usize;
        assert!(houses.contains(&b.house_id));
        assert!(persons.contains(&b.person_id));
        assert!(b.from_date.0 >= start.0 && b.to_date.0 < start.0 + 365);
        assert!((MIN_STAY..=MAX_STAY).contains(&len));
        assert_eq!(b.paid_at.is_some(), b.total_paid.is_some());
        if let (Some(p), Some(t)) = (b.paid_at, b.total_paid) {
            assert!(p.0 >= b.from_date.0 - 30 && p.0 <= b.from_date.0 - 7);
            assert_eq!(t % (len as i64 * 100), 0);
            let nightly = t / (len as i64 * 100);
            assert!((120..=180).contains(&nightly));
        }
    }
    assert!(plan.len() <= 60);
    for h in &houses {
        assert!(plan.iter().any(|b| b.house_id == *h));
    }
    for k in 0..plan.len() {
        if k + 1 == plan.len() || plan[k + 1].house_id != plan[k].house_id {
            let offset = plan[k].from_date.0 - start.0;
            assert!(offset >= 19 * 20 || offset + 20 + MAX_STAY as i32 > 365);
        }
    }
    for k in 0..plan.len() {
        if k == 0 || plan[k - 1].house_id != plan[k].house_id {
            assert!(plan[k].from_date.0 - start.0 < 20);
        } else {
            assert_eq!(plan[k].from_date.0 - plan[k - 1].from_date.0, 20);
        }
    }
    for (i, a) in plan.iter().enumerate() {
        for b in plan.iter().skip(i + 1) {
            if a.house_id == b.house_id {
                assert!(a.to_date.0 < b.from_date.0);
            }
        }
    }
}

#[test]
fn seeded_countries_are_valid_requests() {
    let rows = seed_countries();
    assert_eq!(rows.len(), 50);
    assert_eq!((rows[0].name.as_str(), rows[0].iso_code.as_str()), ("Germany", "DE"));
    assert_eq!((rows[49].name.as_str(), rows[49].iso_code.as_str()), ("United Arab Emirates", "AE"));
    for r in &rows {
        let req = CreateCountryRequest { name: r.name.clone(), iso_code: r.iso_code.clone() };
        assert!(req.validate().is_ok(), "{}", r.name);
    }
}

#[test]
fn a_planned_stay_follows_its_draws() {
    let start = d("2025-01-01");
    let b = planned_stay(4, 9, start, 10, 3, Some((7, 150)));
    assert_eq!(b.house_id, 4);
    assert_eq!(b.person_id, 9);
    assert_eq!((b.from_date, b.to_date), (d("2025-01-11"), d("2025-01-13")));
    assert_eq!(b.paid_at, Some(d("2025-01-04")));
    assert_eq!(b.total_paid, Some(45000));
    let unpaid = planned_stay(4, 9, start, 0, 14, None);
    assert_eq!((unpaid.from_date, unpaid.to_date), (d("2025-01-01"), d("2025-01-14")));
    assert_eq!((unpaid.paid_at, unpaid.total_paid), (None, None));
}

#[test]
fn booking_seeding_needs_houses_and_persons() {
    assert_eq!(check_booking_seed(&vec![], &vec![1]).unwrap_err(), "bookings.seed needs at least one house");
    assert_eq!(check_booking_seed(&vec![1], &vec![]).unwrap_err(), "bookings.seed needs at least one person");
    assert!(check_booking_seed(&vec![1], &vec![2]).is_ok());
}

#[test]
fn planned_bookings_come_house_by_house() {
    let start = d("2025-01-01");
    let houses = vec![5, 3, 8];
    let plan = plan_bookings(&houses, &vec![1], start, 2, 12);
    let mut last_index = 0;
    for h in &houses {
        assert!(plan.iter().filter(|b| b.house_id == *h).count() <= 4);
    }
    for b in &plan {
        let idx = houses.iter().position(|h| *h == b.house_id).unwrap();
        assert!(idx >= last_index);
        last_index = idx;
    }
    assert!(plan_bookings(&houses, &vec![1], start, 0, 12).is_empty());
}
