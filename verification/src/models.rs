//! The records the service reads, writes and answers with.
//!
//! Calendar days are `Date` values: the number of days since the start of
//! the Common Era, where 0001-01-01 is day 1 (the numbering of
//! `chrono::NaiveDate::num_days_from_ce`). Money amounts are integers in
//! hundredths of the currency unit (the service stores prices with two
//! decimals).

use vstd::prelude::*;

verus! {

/// A calendar day, by its number of days since the start of the Common Era.
#[derive(Clone, Copy, Debug, PartialEq, Eq, Structural, Hash)]
pub struct Date(pub i32);

/// A country addresses can belong to.
#[derive(Clone, Debug)]
pub struct Country {
    pub id: i64,
    pub name: String,
    pub iso_code: String,
}

/// Body of a request creating a country.
#[derive(Clone, Debug)]
pub struct CreateCountryRequest {
    pub name: String,
    pub iso_code: String,
}

/// Body of a request replacing a country.
#[derive(Clone, Debug)]
pub struct UpdateCountryRequest {
    pub name: String,
    pub iso_code: String,
}

/// A person managing houses.
#[derive(Clone, Debug)]
pub struct Manager {
    pub id: i64,
    pub first_name: String,
    pub last_name: String,
    pub email: String,
    pub phone: String,
}

/// Body of a request creating a manager.
#[derive(Clone, Debug)]
pub struct CreateManagerRequest {
    pub first_name: String,
    pub last_name: String,
    pub email: String,
    pub phone: String,
}

/// Body of a request replacing a manager.
#[derive(Clone, Debug)]
pub struct UpdateManagerRequest {
    pub first_name: String,
    pub last_name: String,
    pub email: String,
    pub phone: String,
}

/// A person renting houses.
#[derive(Clone, Debug)]
pub struct Person {
    pub id: i64,
    pub first_name: String,
    pub last_name: String,
    pub email: String,
    pub phone: String,
}

/// Body of a request creating a person.
#[derive(Clone, Debug)]
pub struct CreatePersonRequest {
    pub first_name: String,
    pub last_name: String,
    pub email: String,
    pub phone: String,
}

/// Body of a request replacing a person.
#[derive(Clone, Debug)]
pub struct UpdatePersonRequest {
    pub first_name: String,
    pub last_name: String,
    pub email: String,
    pub phone: String,
}

/// A postal address with its country.
#[derive(Clone, Debug)]
pub struct Address {
    pub id: i64,
    pub street: String,
    pub number: String,
    pub postcode: String,
    pub city: String,
    pub province: Option<String>,
    pub country: Country,
}

/// Body of a request creating an address.
#[derive(Clone, Debug)]
pub struct CreateAddressRequest {
    pub street: String,
    pub number: String,
    pub postcode: String,
    pub city: String,
    pub province: Option<String>,
    pub country_id: i64,
}

/// Body of a request replacing an address.
#[derive(Clone, Debug)]
pub struct UpdateAddressRequest {
    pub street: String,
    pub number: String,
    pub postcode: String,
    pub city: String,
    pub province: Option<String>,
    pub country_id: i64,
}

/// A rentable house with its address and manager.
#[derive(Clone, Debug)]
pub struct House {
    pub id: i64,
    pub name: String,
    pub description: String,
    pub address: Address,
    pub manager: Manager,
}

/// Body of a request creating a house.
#[derive(Clone, Debug)]
pub struct CreateHouseRequest {
    pub name: String,
    pub description: String,
    pub address_id: i64,
    pub manager_id: i64,
}

/// Body of a request replacing a house.
#[derive(Clone, Debug)]
pub struct UpdateHouseRequest {
    pub name: String,
    pub description: String,
    pub address_id: i64,
    pub manager_id: i64,
}

/// The state of one day of a house's calendar.
#[derive(Clone, Copy, Debug, PartialEq, Eq, Structural)]
pub enum CalendarStatus {
    NotRentable,
    Rentable,
    Rented,
}

/// One day of a house's calendar, with its price in hundredths.
#[derive(Clone, Copy, Debug, PartialEq, Eq, Structural)]
pub struct CalendarEntry {
    pub id: i64,
    pub date: Date,
    pub status: CalendarStatus,
    pub price: i64,
}

/// A money amount as a request body carries it: its value in hundredths
/// and whether its decimal text was negative (so `-0.00` is negative
/// though its value is zero).
#[derive(Clone, Copy, Debug, PartialEq, Eq, Structural)]
pub struct Amount {
    pub cents: i64,
    pub negative: bool,
}

/// Body of a request creating the calendar days `from..=to`.
#[derive(Clone, Copy, Debug)]
pub struct CreateCalendarRequest {
    pub from: Date,
    pub to: Date,
    pub status: CalendarStatus,
    pub price: Amount,
}

/// Body of a request setting the price of the calendar days `from..=to`.
#[derive(Clone, Copy, Debug)]
pub struct UpdateCalendarPriceRequest {
    pub from: Date,
    pub to: Date,
    pub price: Amount,
}

/// The state of a booking.
#[derive(Clone, Copy, Debug, PartialEq, Eq, Structural)]
pub enum BookingStatus {
    Active,
    Cancelled,
}

/// The house of a booking, as a booking shows it.
#[derive(Clone, Debug)]
pub struct BookingHouse {
    pub id: i64,
    pub name: String,
}

/// The person of a booking, as a booking shows it.
#[derive(Clone, Debug)]
pub struct BookingPerson {
    pub id: i64,
    pub first_name: String,
    pub last_name: String,
}

/// A stay of a person in a house over the days `from..=to`.
#[derive(Clone, Debug)]
pub struct Booking {
    pub id: i64,
    pub house: BookingHouse,
    pub person: BookingPerson,
    pub from: Date,
    pub to: Date,
    pub status: BookingStatus,
    pub paid_at: Option<Date>,
    pub total_paid: Option<i64>,
}

/// Body of a request booking a house for the days `from..=to`.
#[derive(Clone, Copy, Debug)]
pub struct CreateBookingRequest {
    pub house_id: i64,
    pub person_id: i64,
    pub from: Date,
    pub to: Date,
}

/// The answer to a booking request: the booking and the sum of the prices
/// of its days, in hundredths.
#[derive(Clone, Debug)]
pub struct CreateBookingResponse {
    pub booking: Booking,
    pub expected_total_price: i128,
}

/// Body of a request recording the payment of a booking.
#[derive(Clone, Copy, Debug)]
pub struct RecordPaymentRequest {
    pub paid_at: Date,
    pub total_paid: i64,
}

/// A booking row locked for update, with what the booking rules read.
#[derive(Clone, Copy, Debug)]
pub struct LockedBooking {
    pub id: i64,
    pub status: BookingStatus,
    pub house_id: i64,
    pub from_date: Date,
    pub to_date: Date,
}

/// A calendar row locked while a booking is made.
#[derive(Clone, Copy, Debug)]
pub struct CalendarEntryRow {
    pub id: i64,
    pub status: CalendarStatus,
    pub price: i64,
}

/// Paging of a list: at most `limit` rows after skipping `offset`.
#[derive(Clone, Copy, Debug)]
pub struct PaginationQuery {
    pub limit: Option<i64>,
    pub offset: Option<i64>,
}

/// Filters and paging of the booking list.
#[derive(Clone, Copy, Debug)]
pub struct BookingListQuery {
    pub house_id: Option<i64>,
    pub person_id: Option<i64>,
    pub limit: Option<i64>,
    pub offset: Option<i64>,
}

/// Date window of the calendar list.
#[derive(Clone, Copy, Debug)]
pub struct CalendarListQuery {
    pub from: Option<Date>,
    pub to: Option<Date>,
}

/// Date window of a calendar deletion.
#[derive(Clone, Copy, Debug)]
pub struct CalendarDeleteQuery {
    pub from: Date,
    pub to: Date,
}

} // verus!
