use chrono::{Datelike, NaiveDate};
use rental_api::models::{
    CreateAddressRequest, CreateCalendarRequest, CreateCountryRequest, CreateHouseRequest,
    CreatePersonRequest, Amount, CalendarStatus, Date, UpdateCalendarPriceRequest,
};
use rental_api::validation::details_of;

fn d(s: &str) -> Date {
    Date(NaiveDate::parse_from_str(s, "%Y-%m-%d").unwrap().num_days_from_ce())
}

#[test]
fn country_rules() {
    let ok = CreateCountryRequest { name: "Portugal".to_string(), iso_code: "PT".to_string() };
    assert!(ok.validate().is_ok());
    let bad = CreateCountryRequest { name: String::new(), iso_code: "PRT".to_string() };
    let r = bad.validate().unwrap_err();
    assert_eq!(details_of(&r), vec!["name: length".to_string(), "iso_code: length".to_string()]);
}

#[test]
fn lengths_count_characters() {
    let ok = CreateCountryRequest { name: "Österreich".to_string(), iso_code: "ÖS".to_string() };
    assert!(ok.validate().is_ok());
}

#[test]
fn person_email_rule() {
    let ok = CreatePersonRequest {
        first_name: "Ada".to_string(),
        last_name: "Lovelace".to_string(),
        email: "ada@example.com".to_string(),
        phone: "555-0100".to_string(),
    };
    assert!(ok.validate().is_ok());
    let bad = CreatePersonRequest { email: "not-an-email".to_string(), ..ok.clone() };
    let r = bad.validate().unwrap_err();
    assert_eq!(details_of(&r), vec!["email: email".to_string()]);
}

#[test]
fn house_ids_must_be_positive() {
    let bad = CreateHouseRequest { name: "Villa Sol".to_string(), description: "Sea view".to_string(), address_id: 0, manager_id: -1 };
    let r = bad.validate().unwrap_err();
    let details = details_of(&r);
    assert!(details.contains(&"address_id: range".to_string()));
    assert!(details.contains(&"manager_id: range".to_string()));
}

#[test]
fn address_province_is_optional() {
    let ok = CreateAddressRequest {
        street: "Main Street".to_string(),
        number: "1".to_string(),
        postcode: "1000".to_string(),
        city: "Lisbon".to_string(),
        province: None,
        country_id: 1,
    };
    assert!(ok.validate().is_ok());
}

#[test]
fn calendar_prices_must_not_be_negative() {
    let ok = CreateCalendarRequest { from: d("2024-07-01"), to: d("2024-07-05"), status: CalendarStatus::Rentable, price: Amount { cents: 0, negative: false } };
    assert!(ok.validate().is_ok());
    let bad = UpdateCalendarPriceRequest { from: d("2024-07-01"), to: d("2024-07-05"), price: Amount { cents: -1, negative: true } };
    let r = bad.validate().unwrap_err();
    assert_eq!(details_of(&r), vec!["price: must_be_non_negative".to_string()]);
    let negative_zero = UpdateCalendarPriceRequest { from: d("2024-07-01"), to: d("2024-07-05"), price: Amount { cents: 0, negative: true } };
    assert_eq!(details_of(&negative_zero.validate().unwrap_err()), vec!["price: must_be_non_negative".to_string()]);
    let fine = UpdateCalendarPriceRequest { from: d("2024-07-01"), to: d("2024-07-05"), price: Amount { cents: 15000, negative: false } };
    assert!(fine.validate().is_ok());
}
