//! The field rules of the request bodies: text lengths (in characters),
//! e-mail form, positive ids and non-negative prices. Each body's
//! `validate` reports every broken rule, field by field, in the order the
//! fields are declared.

use vstd::prelude::*;

use crate::models::{
    Amount, CreateAddressRequest, CreateCalendarRequest, CreateCountryRequest, CreateHouseRequest,
    CreatePersonRequest, UpdateAddressRequest, UpdateCalendarPriceRequest, UpdateCountryRequest,
    UpdateHouseRequest, UpdatePersonRequest,
};
use crate::validation::{
    details_of, fields_details, issues_details, prefixed, report_details, texts, FieldIssues,
    FieldReport,
    ValidationReport,
};
use crate::text::{chars_of, string_of};
use validator::ValidateEmail;

verus! {

/// Whether `validator` accepts a text as an e-mail address.
pub uninterp spec fn validator_email(s: Seq<char>) -> bool;

/// Whether a text is an e-mail address by the HTML5 rule of the `validator`
/// crate (`ValidateEmail::validate_email`); a text without `@` never is.
#[verifier::external_body]
fn email_accepted(s: &str) -> (r: bool)
    ensures
        r == validator_email(s@),
        r ==> s@.contains('@'),
{
    s.validate_email()
}

/// The detail of a broken rule of a field.
pub open spec fn detail(field: Seq<char>, code: Seq<char>) -> Seq<char> {
    field + ": "@ + code
}

/// The details of a text whose length must lie in `min..=max`.
pub open spec fn length_details(field: Seq<char>, v: Seq<char>, min: int, max: int) -> Seq<Seq<char>> {
    if min <= v.len() <= max {
        Seq::empty()
    } else {
        seq![detail(field, "length"@)]
    }
}

/// The details of an optional text whose length, when given, must lie in
/// `min..=max`.
pub open spec fn opt_length_details(field: Seq<char>, v: Option<String>, min: int, max: int) -> Seq<Seq<char>> {
    match v {
        Some(s) => length_details(field, s@, min, max),
        None => Seq::empty(),
    }
}

/// The details of an id that must be at least 1.
pub open spec fn range_details(field: Seq<char>, v: i64) -> Seq<Seq<char>> {
    if v >= 1 {
        Seq::empty()
    } else {
        seq![detail(field, "range"@)]
    }
}

/// Whether an amount is negative: by its sign, or by its value.
pub open spec fn amount_negative(v: Amount) -> bool {
    v.negative || v.cents < 0
}

/// The details of a price that must not be negative.
pub open spec fn price_details(field: Seq<char>, v: Amount) -> Seq<Seq<char>> {
    if !amount_negative(v) {
        Seq::empty()
    } else {
        seq![detail(field, "must_be_non_negative"@)]
    }
}

/// The details of an e-mail field of at most `max` characters: the e-mail
/// rule first, then the length.
pub open spec fn email_details(field: Seq<char>, v: Seq<char>, max: int) -> Seq<Seq<char>> {
    (if validator_email(v) {
        Seq::empty()
    } else {
        seq![detail(field, "email"@)]
    }) + (if v.len() <= max {
        Seq::empty()
    } else {
        seq![detail(field, "length"@)]
    })
}

proof fn lemma_fields_push(fs: Seq<FieldReport>, f: FieldReport)
    ensures
        fields_details(fs.push(f)) == fields_details(fs) + issues_details(f.field@, f.issues),
{
    assert(fs.push(f).drop_last() =~= fs);
}

fn code(c: &str) -> (s: String)
    ensures
        s@ == c@,
{
    let v = chars_of(c);
    string_of(&v)
}

fn push_field(fields: &mut Vec<FieldReport>, field: &str, codes: Vec<String>)
    ensures
        fields_details(final(fields)@) == fields_details(old(fields)@) + prefixed(
            field@ + ": "@,
            texts(codes@),
        ),
{
    if codes.len() == 0 {
        assert(prefixed(field@ + ": "@, texts(codes@)) =~= Seq::<Seq<char>>::empty());
        assert(fields_details(old(fields)@) + Seq::<Seq<char>>::empty() =~= fields_details(
            old(fields)@,
        ));
    } else {
        let f = FieldReport { field: code(field), issues: FieldIssues::Field(codes) };
        proof {
            lemma_fields_push(fields@, f);
        }
        fields.push(f);
    }
}

fn one_code(c: &str) -> (v: Vec<String>)
    ensures
        texts(v@) == seq![c@],
{
    let mut v: Vec<String> = Vec::new();
    v.push(code(c));
    assert(texts(v@) =~= seq![c@]);
    v
}

fn no_code() -> (v: Vec<String>)
    ensures
        texts(v@) == Seq::<Seq<char>>::empty(),
{
    let v: Vec<String> = Vec::new();
    assert(texts(v@) =~= Seq::<Seq<char>>::empty());
    v
}

fn check_length(fields: &mut Vec<FieldReport>, field: &str, value: &str, min: usize, max: usize)
    ensures
        fields_details(final(fields)@) == fields_details(old(fields)@) + length_details(
            field@,
            value@,
            min as int,
            max as int,
        ),
{
    let n = chars_of(value).len();
    let codes = if min <= n && n <= max {
        no_code()
    } else {
        one_code("length")
    };
    push_field(fields, field, codes);
    assert(prefixed(field@ + ": "@, texts(codes@)) =~= length_details(
        field@,
        value@,
        min as int,
        max as int,
    ));
}

fn check_opt_length(
    fields: &mut Vec<FieldReport>,
    field: &str,
    value: &Option<String>,
    min: usize,
    max: usize,
)
    ensures
        fields_details(final(fields)@) == fields_details(old(fields)@) + opt_length_details(
            field@,
            *value,
            min as int,
            max as int,
        ),
{
    match value {
        Some(s) => check_length(fields, field, s.as_str(), min, max),
        None => {
            assert(fields_details(old(fields)@) + Seq::<Seq<char>>::empty() =~= fields_details(
                old(fields)@,
            ));
        },
    }
}

fn check_range(fields: &mut Vec<FieldReport>, field: &str, value: i64)
    ensures
        fields_details(final(fields)@) == fields_details(old(fields)@) + range_details(
            field@,
            value,
        ),
{
    let codes = if value >= 1 {
        no_code()
    } else {
        one_code("range")
    };
    push_field(fields, field, codes);
    assert(prefixed(field@ + ": "@, texts(codes@)) =~= range_details(field@, value));
}

fn check_price(fields: &mut Vec<FieldReport>, field: &str, value: Amount)
    ensures
        fields_details(final(fields)@) == fields_details(old(fields)@) + price_details(
            field@,
            value,
        ),
{
    let codes = if !(value.negative || value.cents < 0) {
        no_code()
    } else {
        one_code("must_be_non_negative")
    };
    push_field(fields, field, codes);
    assert(prefixed(field@ + ": "@, texts(codes@)) =~= price_details(field@, value));
}

fn check_email(fields: &mut Vec<FieldReport>, field: &str, value: &str, max: usize)
    ensures
        fields_details(final(fields)@) == fields_details(old(fields)@) + email_details(
            field@,
            value@,
            max as int,
        ),
{
    let mut codes: Vec<String> = Vec::new();
    if !email_accepted(value) {
        codes.push(code("email"));
    }
    if chars_of(value).len() > max {
        codes.push(code("length"));
    }
    push_field(fields, field, codes);
    assert(prefixed(field@ + ": "@, texts(codes@)) =~= email_details(field@, value@, max as int));
}

fn finish(fields: Vec<FieldReport>) -> (r: Result<(), ValidationReport>)
    ensures
        r is Ok <==> fields_details(fields@).len() == 0,
        r matches Err(rep) ==> report_details(rep) == fields_details(fields@),
{
    let rep = ValidationReport { fields };
    let details = details_of(&rep);
    if details.len() == 0 {
        return Ok(());
    }
    Err(rep)
}

/// What a validation reports: nothing when no rule is broken, else exactly
/// the given details.
pub open spec fn reports(r: Result<(), ValidationReport>, details: Seq<Seq<char>>) -> bool {
    &&& r is Ok <==> details.len() == 0
    &&& r matches Err(rep) ==> report_details(rep) == details
}

/// The broken rules of a country: a name of 1 to 100 characters and an ISO
/// code of exactly 2.
pub open spec fn country_details(name: Seq<char>, iso_code: Seq<char>) -> Seq<Seq<char>> {
    length_details("name"@, name, 1, 100) + length_details("iso_code"@, iso_code, 2, 2)
}

fn validate_country(name: &String, iso_code: &String) -> (r: Result<(), ValidationReport>)
    ensures
        reports(r, country_details(name@, iso_code@)),
{
    let mut fields: Vec<FieldReport> = Vec::new();
    assert(fields_details(fields@) =~= Seq::<Seq<char>>::empty());
    check_length(&mut fields, "name", name.as_str(), 1, 100);
    check_length(&mut fields, "iso_code", iso_code.as_str(), 2, 2);
    assert(fields_details(fields@) =~= country_details(name@, iso_code@));
    finish(fields)
}

impl CreateCountryRequest {
    /// Checks the country's rules.
    pub fn validate(&self) -> (r: Result<(), ValidationReport>)
        ensures
            reports(r, country_details(self.name@, self.iso_code@)),
    {
        validate_country(&self.name, &self.iso_code)
    }
}

impl UpdateCountryRequest {
    /// Checks the country's rules.
    pub fn validate(&self) -> (r: Result<(), ValidationReport>)
        ensures
            reports(r, country_details(self.name@, self.iso_code@)),
    {
        validate_country(&self.name, &self.iso_code)
    }
}

/// The broken rules of an address: street 1 to 255 characters, number and
/// postcode 1 to 20, city 1 to 100, a given province 1 to 100, and a
/// country id of at least 1.
pub open spec fn address_details(
    street: Seq<char>,
    number: Seq<char>,
    postcode: Seq<char>,
    city: Seq<char>,
    province: Option<String>,
    country_id: i64,
) -> Seq<Seq<char>> {
    length_details("street"@, street, 1, 255) + length_details("number"@, number, 1, 20)
        + length_details("postcode"@, postcode, 1, 20) + length_details("city"@, city, 1, 100)
        + opt_length_details("province"@, province, 1, 100) + range_details(
        "country_id"@,
        country_id,
    )
}

fn validate_address(
    street: &String,
    number: &String,
    postcode: &String,
    city: &String,
    province: &Option<String>,
    country_id: i64,
) -> (r: Result<(), ValidationReport>)
    ensures
        reports(r, address_details(street@, number@, postcode@, city@, *province, country_id)),
{
    let mut fields: Vec<FieldReport> = Vec::new();
    assert(fields_details(fields@) =~= Seq::<Seq<char>>::empty());
    check_length(&mut fields, "street", street.as_str(), 1, 255);
    check_length(&mut fields, "number", number.as_str(), 1, 20);
    check_length(&mut fields, "postcode", postcode.as_str(), 1, 20);
    check_length(&mut fields, "city", city.as_str(), 1, 100);
    check_opt_length(&mut fields, "province", province, 1, 100);
    check_range(&mut fields, "country_id", country_id);
    assert(fields_details(fields@) =~= address_details(
        street@,
        number@,
        postcode@,
        city@,
        *province,
        country_id,
    ));
    finish(fields)
}

impl CreateAddressRequest {
    /// Checks the address's rules.
    pub fn validate(&self) -> (r: Result<(), ValidationReport>)
        ensures
            reports(
                r,
                address_details(
                    self.street@,
                    self.number@,
                    self.postcode@,
                    self.city@,
                    self.province,
                    self.country_id,
                ),
            ),
    {
        validate_address(
            &self.street,
            &self.number,
            &self.postcode,
            &self.city,
            &self.province,
            self.country_id,
        )
    }
}

impl UpdateAddressRequest {
    /// Checks the address's rules.
    pub fn validate(&self) -> (r: Result<(), ValidationReport>)
        ensures
            reports(
                r,
                address_details(
                    self.street@,
                    self.number@,
                    self.postcode@,
                    self.city@,
                    self.province,
                    self.country_id,
                ),
            ),
    {
        validate_address(
            &self.street,
            &self.number,
            &self.postcode,
            &self.city,
            &self.province,
            self.country_id,
        )
    }
}

/// The broken rules of a house: a name of 1 to 255 characters, a
/// description of at most 2000, and address and manager ids of at least 1.
pub open spec fn house_details(
    name: Seq<char>,
    description: Seq<char>,
    address_id: i64,
    manager_id: i64,
) -> Seq<Seq<char>> {
    length_details("name"@, name, 1, 255) + length_details("description"@, description, 0, 2000)
        + range_details("address_id"@, address_id) + range_details("manager_id"@, manager_id)
}

fn validate_house(name: &String, description: &String, address_id: i64, manager_id: i64) -> (r:
    Result<(), ValidationReport>)
    ensures
        reports(r, house_details(name@, description@, address_id, manager_id)),
{
    let mut fields: Vec<FieldReport> = Vec::new();
    assert(fields_details(fields@) =~= Seq::<Seq<char>>::empty());
    check_length(&mut fields, "name", name.as_str(), 1, 255);
    check_length(&mut fields, "description", description.as_str(), 0, 2000);
    check_range(&mut fields, "address_id", address_id);
    check_range(&mut fields, "manager_id", manager_id);
    assert(fields_details(fields@) =~= house_details(name@, description@, address_id, manager_id));
    finish(fields)
}

impl CreateHouseRequest {
    /// Checks the house's rules.
    pub fn validate(&self) -> (r: Result<(), ValidationReport>)
        ensures
            reports(
                r,
                house_details(self.name@, self.description@, self.address_id, self.manager_id),
            ),
    {
        validate_house(&self.name, &self.description, self.address_id, self.manager_id)
    }
}

impl UpdateHouseRequest {
    /// Checks the house's rules.
    pub fn validate(&self) -> (r: Result<(), ValidationReport>)
        ensures
            reports(
                r,
                house_details(self.name@, self.description@, self.address_id, self.manager_id),
            ),
    {
        validate_house(&self.name, &self.description, self.address_id, self.manager_id)
    }
}

/// The broken rules of a person: first and last name 1 to 100 characters,
/// an e-mail address of at most 255, and a phone of 1 to 50.
pub open spec fn person_details(
    first_name: Seq<char>,
    last_name: Seq<char>,
    email: Seq<char>,
    phone: Seq<char>,
) -> Seq<Seq<char>> {
    length_details("first_name"@, first_name, 1, 100) + length_details(
        "last_name"@,
        last_name,
        1,
        100,
    ) + email_details("email"@, email, 255) + length_details("phone"@, phone, 1, 50)
}

fn validate_person(first_name: &String, last_name: &String, email: &String, phone: &String) -> (r:
    Result<(), ValidationReport>)
    ensures
        reports(r, person_details(first_name@, last_name@, email@, phone@)),
{
    let mut fields: Vec<FieldReport> = Vec::new();
    assert(fields_details(fields@) =~= Seq::<Seq<char>>::empty());
    check_length(&mut fields, "first_name", first_name.as_str(), 1, 100);
    check_length(&mut fields, "last_name", last_name.as_str(), 1, 100);
    check_email(&mut fields, "email", email.as_str(), 255);
    check_length(&mut fields, "phone", phone.as_str(), 1, 50);
    assert(fields_details(fields@) =~= person_details(first_name@, last_name@, email@, phone@));
    finish(fields)
}

impl CreatePersonRequest {
    /// Checks the person's rules.
    pub fn validate(&self) -> (r: Result<(), ValidationReport>)
        ensures
            reports(
                r,
                person_details(self.first_name@, self.last_name@, self.email@, self.phone@),
            ),
    {
        validate_person(&self.first_name, &self.last_name, &self.email, &self.phone)
    }
}

impl UpdatePersonRequest {
    /// Checks the person's rules.
    pub fn validate(&self) -> (r: Result<(), ValidationReport>)
        ensures
            reports(
                r,
                person_details(self.first_name@, self.last_name@, self.email@, self.phone@),
            ),
    {
        validate_person(&self.first_name, &self.last_name, &self.email, &self.phone)
    }
}

fn validate_price(price: Amount) -> (r: Result<(), ValidationReport>)
    ensures
        reports(r, price_details("price"@, price)),
{
    let mut fields: Vec<FieldReport> = Vec::new();
    assert(fields_details(fields@) =~= Seq::<Seq<char>>::empty());
    check_price(&mut fields, "price", price);
    assert(fields_details(fields@) =~= price_details("price"@, price));
    finish(fields)
}

impl CreateCalendarRequest {
    /// Checks the calendar creation's rule: the price must not be negative.
    pub fn validate(&self) -> (r: Result<(), ValidationReport>)
        ensures
            reports(r, price_details("price"@, self.price)),
    {
        validate_price(self.price)
    }
}

impl UpdateCalendarPriceRequest {
    /// Checks the price update's rule: the price must not be negative.
    pub fn validate(&self) -> (r: Result<(), ValidationReport>)
        ensures
            reports(r, price_details("price"@, self.price)),
    {
        validate_price(self.price)
    }
}

/// A house request is accepted exactly when its name has 1 to 255
/// characters, its description at most 2000, and both its ids are at least
/// 1; each broken rule is reported on its own field.
pub proof fn law_house_rules(name: Seq<char>, description: Seq<char>, address_id: i64, manager_id: i64)
    ensures
        house_details(name, description, address_id, manager_id).len() == 0 <==> (1 <= name.len()
            <= 255 && description.len() <= 2000 && address_id >= 1 && manager_id >= 1),
        house_details(name, description, address_id, manager_id).contains("description: length"@)
            <==> description.len() > 2000,
        house_details(name, description, address_id, manager_id).contains("name: length"@) <==> !(1
            <= name.len() <= 255),
        house_details(name, description, address_id, manager_id).contains("address_id: range"@)
            <==> address_id < 1,
        house_details(name, description, address_id, manager_id).contains("manager_id: range"@)
            <==> manager_id < 1,
{
    reveal_strlit("name");
    reveal_strlit("description");
    reveal_strlit("address_id");
    reveal_strlit("manager_id");
    reveal_strlit(": ");
    reveal_strlit("length");
    reveal_strlit("range");
    reveal_strlit("description: length");
    reveal_strlit("name: length");
    reveal_strlit("address_id: range");
    reveal_strlit("manager_id: range");
    let a = length_details("name"@, name, 1, 255);
    let b = length_details("description"@, description, 0, 2000);
    let c = range_details("address_id"@, address_id);
    let d = range_details("manager_id"@, manager_id);
    let all = house_details(name, description, address_id, manager_id);
    assert(all == a + b + c + d);
    assert(detail("name"@, "length"@) =~= "name: length"@);
    assert(detail("description"@, "length"@) =~= "description: length"@);
    assert(detail("address_id"@, "range"@) =~= "address_id: range"@);
    assert(detail("manager_id"@, "range"@) =~= "manager_id: range"@);
    let dn = "name: length"@;
    let dd = "description: length"@;
    let da = "address_id: range"@;
    let dm = "manager_id: range"@;
    assert(dn != dd && dn != da && dn != dm && dd != da && dd != dm && da != dm) by {
        assert(dn.len() != dd.len());
        assert(dn.len() != da.len());
        assert(dn.len() != dm.len());
        assert(dd.len() != da.len());
        assert(dd.len() != dm.len());
        assert(da[0] != dm[0]);
    }
    assert forall|x: Seq<char>| all.contains(x) <==> ((x == dn && !(1 <= name.len() <= 255)) || (x
        == dd && description.len() > 2000) || (x == da && address_id < 1) || (x == dm && manager_id
        < 1)) by {
        if all.contains(x) {
            let i = choose|i: int| 0 <= i < all.len() && all[i] == x;
            if i < a.len() {
                assert(all[i] == a[i]);
            } else if i < a.len() + b.len() {
                assert(all[i] == b[i - a.len()]);
            } else if i < a.len() + b.len() + c.len() {
                assert(all[i] == c[i - a.len() - b.len()]);
            } else {
                assert(all[i] == d[i - a.len() - b.len() - c.len()]);
            }
        }
        if x == dn && !(1 <= name.len() <= 255) {
            assert(all[0] == x);
        }
        if x == dd && description.len() > 2000 {
            assert(all[a.len() as int] == x);
        }
        if x == da && address_id < 1 {
            assert(all[(a.len() + b.len()) as int] == x);
        }
        if x == dm && manager_id < 1 {
            assert(all[(a.len() + b.len() + c.len()) as int] == x);
        }
    }
}

proof fn lemma_concat_contains(s: Seq<Seq<char>>, t: Seq<Seq<char>>, x: Seq<char>)
    ensures
        (s + t).contains(x) <==> s.contains(x) || t.contains(x),
        (s + t).len() == s.len() + t.len(),
{
    if (s + t).contains(x) {
        let i = choose|i: int| 0 <= i < (s + t).len() && (s + t)[i] == x;
        if i < s.len() {
            assert(s[i] == x);
        } else {
            assert(t[i - s.len()] == x);
        }
    }
    if s.contains(x) {
        let i = choose|i: int| 0 <= i < s.len() && s[i] == x;
        assert((s + t)[i] == x);
    }
    if t.contains(x) {
        let i = choose|i: int| 0 <= i < t.len() && t[i] == x;
        assert((s + t)[s.len() + i] == x);
    }
}

proof fn lemma_single_block(present: bool, d: Seq<char>, x: Seq<char>)
    ensures
        (if present {
            seq![d]
        } else {
            Seq::<Seq<char>>::empty()
        }).contains(x) <==> present && x == d,
        (if present {
            seq![d]
        } else {
            Seq::<Seq<char>>::empty()
        }).len() == (if present {
            1int
        } else {
            0int
        }),
{
    if present {
        assert(seq![d][0] == d);
    }
}

/// A country request is accepted exactly when its name has 1 to 100
/// characters and its code exactly 2; each broken rule is reported on its
/// own field.
pub proof fn law_country_rules(name: Seq<char>, iso_code: Seq<char>)
    ensures
        (country_details(name, iso_code)).len() == 0 <==> (!(!(1 <= name.len() <= 100)) && !(iso_code.len() != 2)),
        (country_details(name, iso_code)).contains("name: length"@) <==> (!(1 <= name.len() <= 100)),
        (country_details(name, iso_code)).contains("iso_code: length"@) <==> (iso_code.len() != 2),
{
    reveal_strlit(": ");
    reveal_strlit("iso_code");
    reveal_strlit("iso_code: length");
    reveal_strlit("length");
    reveal_strlit("name");
    reveal_strlit("name: length");
    let b0 = length_details("name"@, name, 1, 100);
    assert(detail("name"@, "length"@) =~= "name: length"@);
    assert(b0 == (if !(1 <= name.len() <= 100) { seq!["name: length"@] } else { Seq::<Seq<char>>::empty() }));
    let b1 = length_details("iso_code"@, iso_code, 2, 2);
    assert(detail("iso_code"@, "length"@) =~= "iso_code: length"@);
    assert(b1 == (if iso_code.len() != 2 { seq!["iso_code: length"@] } else { Seq::<Seq<char>>::empty() }));
    let all = country_details(name, iso_code);
    assert(all == b0 + b1);
    assert("name: length"@.len() != "iso_code: length"@.len());
    assert forall|x: Seq<char>| all.contains(x) <==> (((!(1 <= name.len() <= 100)) && x == "name: length"@) || ((iso_code.len() != 2) && x == "iso_code: length"@)) by {
        lemma_single_block(!(1 <= name.len() <= 100), "name: length"@, x);
        lemma_single_block(iso_code.len() != 2, "iso_code: length"@, x);
        lemma_concat_contains(b0, b1, x);
    }
    lemma_single_block(!(1 <= name.len() <= 100), "name: length"@, "name: length"@);
    lemma_single_block(iso_code.len() != 2, "iso_code: length"@, "iso_code: length"@);
    lemma_concat_contains(b0, b1, "name: length"@);
}

/// An address request is accepted exactly when its street has 1 to 255
/// characters, its number and postcode 1 to 20, its city 1 to 100, its
/// province, when given, 1 to 100, and its country id is at least 1; each
/// broken rule is reported on its own field.
pub proof fn law_address_rules(street: Seq<char>, number: Seq<char>, postcode: Seq<char>, city: Seq<char>, province: Option<String>, country_id: i64)
    ensures
        (address_details(street, number, postcode, city, province, country_id)).len() == 0 <==> (!(!(1 <= street.len() <= 255)) && !(!(1 <= number.len() <= 20)) && !(!(1 <= postcode.len() <= 20)) && !(!(1 <= city.len() <= 100)) && !((province matches Some(p) && !(1 <= p@.len() <= 100))) && !(country_id < 1)),
        (address_details(street, number, postcode, city, province, country_id)).contains("street: length"@) <==> (!(1 <= street.len() <= 255)),
        (address_details(street, number, postcode, city, province, country_id)).contains("number: length"@) <==> (!(1 <= number.len() <= 20)),
        (address_details(street, number, postcode, city, province, country_id)).contains("postcode: length"@) <==> (!(1 <= postcode.len() <= 20)),
        (address_details(street, number, postcode, city, province, country_id)).contains("city: length"@) <==> (!(1 <= city.len() <= 100)),
        (address_details(street, number, postcode, city, province, country_id)).contains("province: length"@) <==> ((province matches Some(p) && !(1 <= p@.len() <= 100))),
        (address_details(street, number, postcode, city, province, country_id)).contains("country_id: range"@) <==> (country_id < 1),
{
    reveal_strlit(": ");
    reveal_strlit("city");
    reveal_strlit("city: length");
    reveal_strlit("country_id");
    reveal_strlit("country_id: range");
    reveal_strlit("length");
    reveal_strlit("number");
    reveal_strlit("number: length");
    reveal_strlit("postcode");
    reveal_strlit("postcode: length");
    reveal_strlit("province");
    reveal_strlit("province: length");
    reveal_strlit("range");
    reveal_strlit("street");
    reveal_strlit("street: length");
    let b0 = length_details("street"@, street, 1, 255);
    assert(detail("street"@, "length"@) =~= "street: length"@);
    assert(b0 == (if !(1 <= street.len() <= 255) { seq!["street: length"@] } else { Seq::<Seq<char>>::empty() }));
    let b1 = length_details("number"@, number, 1, 20);
    assert(detail("number"@, "length"@) =~= "number: length"@);
    assert(b1 == (if !(1 <= number.len() <= 20) { seq!["number: length"@] } else { Seq::<Seq<char>>::empty() }));
    let b2 = length_details("postcode"@, postcode, 1, 20);
    assert(detail("postcode"@, "length"@) =~= "postcode: length"@);
    assert(b2 == (if !(1 <= postcode.len() <= 20) { seq!["postcode: length"@] } else { Seq::<Seq<char>>::empty() }));
    let b3 = length_details("city"@, city, 1, 100);
    assert(detail("city"@, "length"@) =~= "city: length"@);
    assert(b3 == (if !(1 <= city.len() <= 100) { seq!["city: length"@] } else { Seq::<Seq<char>>::empty() }));
    let b4 = opt_length_details("province"@, province, 1, 100);
    assert(detail("province"@, "length"@) =~= "province: length"@);
    assert(b4 == (if (province matches Some(p) && !(1 <= p@.len() <= 100)) { seq!["province: length"@] } else { Seq::<Seq<char>>::empty() }));
    let b5 = range_details("country_id"@, country_id);
    assert(detail("country_id"@, "range"@) =~= "country_id: range"@);
    assert(b5 == (if country_id < 1 { seq!["country_id: range"@] } else { Seq::<Seq<char>>::empty() }));
    let all = address_details(street, number, postcode, city, province, country_id);
    assert(all == b0 + b1 + b2 + b3 + b4 + b5);
    assert("street: length"@[0] != "number: length"@[0]);
    assert("street: length"@.len() != "postcode: length"@.len());
    assert("street: length"@.len() != "city: length"@.len());
    assert("street: length"@.len() != "province: length"@.len());
    assert("street: length"@.len() != "country_id: range"@.len());
    assert("number: length"@.len() != "postcode: length"@.len());
    assert("number: length"@.len() != "city: length"@.len());
    assert("number: length"@.len() != "province: length"@.len());
    assert("number: length"@.len() != "country_id: range"@.len());
    assert("postcode: length"@.len() != "city: length"@.len());
    assert("postcode: length"@[1] != "province: length"@[1]);
    assert("postcode: length"@.len() != "country_id: range"@.len());
    assert("city: length"@.len() != "province: length"@.len());
    assert("city: length"@.len() != "country_id: range"@.len());
    assert("province: length"@.len() != "country_id: range"@.len());
    assert forall|x: Seq<char>| all.contains(x) <==> (((!(1 <= street.len() <= 255)) && x == "street: length"@) || ((!(1 <= number.len() <= 20)) && x == "number: length"@) || ((!(1 <= postcode.len() <= 20)) && x == "postcode: length"@) || ((!(1 <= city.len() <= 100)) && x == "city: length"@) || (((province matches Some(p) && !(1 <= p@.len() <= 100))) && x == "province: length"@) || ((country_id < 1) && x == "country_id: range"@)) by {
        lemma_single_block(!(1 <= street.len() <= 255), "street: length"@, x);
        lemma_single_block(!(1 <= number.len() <= 20), "number: length"@, x);
        lemma_single_block(!(1 <= postcode.len() <= 20), "postcode: length"@, x);
        lemma_single_block(!(1 <= city.len() <= 100), "city: length"@, x);
        lemma_single_block((province matches Some(p) && !(1 <= p@.len() <= 100)), "province: length"@, x);
        lemma_single_block(country_id < 1, "country_id: range"@, x);
        lemma_concat_contains(b0, b1, x);
        lemma_concat_contains(b0 + b1, b2, x);
        lemma_concat_contains(b0 + b1 + b2, b3, x);
        lemma_concat_contains(b0 + b1 + b2 + b3, b4, x);
        lemma_concat_contains(b0 + b1 + b2 + b3 + b4, b5, x);
    }
    lemma_single_block(!(1 <= street.len() <= 255), "street: length"@, "street: length"@);
    lemma_single_block(!(1 <= number.len() <= 20), "number: length"@, "number: length"@);
    lemma_single_block(!(1 <= postcode.len() <= 20), "postcode: length"@, "postcode: length"@);
    lemma_single_block(!(1 <= city.len() <= 100), "city: length"@, "city: length"@);
    lemma_single_block((province matches Some(p) && !(1 <= p@.len() <= 100)), "province: length"@, "province: length"@);
    lemma_single_block(country_id < 1, "country_id: range"@, "country_id: range"@);
    lemma_concat_contains(b0, b1, "street: length"@);
    lemma_concat_contains(b0 + b1, b2, "street: length"@);
    lemma_concat_contains(b0 + b1 + b2, b3, "street: length"@);
    lemma_concat_contains(b0 + b1 + b2 + b3, b4, "street: length"@);
    lemma_concat_contains(b0 + b1 + b2 + b3 + b4, b5, "street: length"@);
}

/// A person request is accepted exactly when its names have 1 to 100
/// characters, its e-mail is an e-mail address of at most 255 characters
/// and its phone has 1 to 50; each broken rule is reported on its own
/// field, the e-mail with one detail per broken rule.
pub proof fn law_person_rules(first_name: Seq<char>, last_name: Seq<char>, email: Seq<char>, phone: Seq<char>)
    ensures
        (person_details(first_name, last_name, email, phone)).len() == 0 <==> (!(!(1 <= first_name.len() <= 100)) && !(!(1 <= last_name.len() <= 100)) && !(!validator_email(email)) && !(email.len() > 255) && !(!(1 <= phone.len() <= 50))),
        (person_details(first_name, last_name, email, phone)).contains("first_name: length"@) <==> (!(1 <= first_name.len() <= 100)),
        (person_details(first_name, last_name, email, phone)).contains("last_name: length"@) <==> (!(1 <= last_name.len() <= 100)),
        (person_details(first_name, last_name, email, phone)).contains("email: email"@) <==> (!validator_email(email)),
        (person_details(first_name, last_name, email, phone)).contains("email: length"@) <==> (email.len() > 255),
        (person_details(first_name, last_name, email, phone)).contains("phone: length"@) <==> (!(1 <= phone.len() <= 50)),
{
    reveal_strlit(": ");
    reveal_strlit("email");
    reveal_strlit("email: email");
    reveal_strlit("email: length");
    reveal_strlit("first_name");
    reveal_strlit("first_name: length");
    reveal_strlit("last_name");
    reveal_strlit("last_name: length");
    reveal_strlit("length");
    reveal_strlit("phone");
    reveal_strlit("phone: length");
    let b0 = length_details("first_name"@, first_name, 1, 100);
    assert(detail("first_name"@, "length"@) =~= "first_name: length"@);
    assert(b0 == (if !(1 <= first_name.len() <= 100) { seq!["first_name: length"@] } else { Seq::<Seq<char>>::empty() }));
    let b1 = length_details("last_name"@, last_name, 1, 100);
    assert(detail("last_name"@, "length"@) =~= "last_name: length"@);
    assert(b1 == (if !(1 <= last_name.len() <= 100) { seq!["last_name: length"@] } else { Seq::<Seq<char>>::empty() }));
    let b2 = (if validator_email(email) { Seq::<Seq<char>>::empty() } else { seq![detail("email"@, "email"@)] });
    assert(detail("email"@, "email"@) =~= "email: email"@);
    assert(b2 == (if !validator_email(email) { seq!["email: email"@] } else { Seq::<Seq<char>>::empty() }));
    let b3 = (if email.len() <= 255 { Seq::<Seq<char>>::empty() } else { seq![detail("email"@, "length"@)] });
    assert(detail("email"@, "length"@) =~= "email: length"@);
    assert(b3 == (if email.len() > 255 { seq!["email: length"@] } else { Seq::<Seq<char>>::empty() }));
    let b4 = length_details("phone"@, phone, 1, 50);
    assert(detail("phone"@, "length"@) =~= "phone: length"@);
    assert(b4 == (if !(1 <= phone.len() <= 50) { seq!["phone: length"@] } else { Seq::<Seq<char>>::empty() }));
    let all = person_details(first_name, last_name, email, phone);
    assert(all == b0 + b1 + b2 + b3 + b4);
    assert("first_name: length"@.len() != "last_name: length"@.len());
    assert("first_name: length"@.len() != "email: email"@.len());
    assert("first_name: length"@.len() != "email: length"@.len());
    assert("first_name: length"@.len() != "phone: length"@.len());
    assert("last_name: length"@.len() != "email: email"@.len());
    assert("last_name: length"@.len() != "email: length"@.len());
    assert("last_name: length"@.len() != "phone: length"@.len());
    assert("email: email"@.len() != "email: length"@.len());
    assert("email: email"@.len() != "phone: length"@.len());
    assert("email: length"@[0] != "phone: length"@[0]);
    assert forall|x: Seq<char>| all.contains(x) <==> (((!(1 <= first_name.len() <= 100)) && x == "first_name: length"@) || ((!(1 <= last_name.len() <= 100)) && x == "last_name: length"@) || ((!validator_email(email)) && x == "email: email"@) || ((email.len() > 255) && x == "email: length"@) || ((!(1 <= phone.len() <= 50)) && x == "phone: length"@)) by {
        lemma_single_block(!(1 <= first_name.len() <= 100), "first_name: length"@, x);
        lemma_single_block(!(1 <= last_name.len() <= 100), "last_name: length"@, x);
        lemma_single_block(!validator_email(email), "email: email"@, x);
        lemma_single_block(email.len() > 255, "email: length"@, x);
        lemma_single_block(!(1 <= phone.len() <= 50), "phone: length"@, x);
        lemma_concat_contains(b0, b1, x);
        lemma_concat_contains(b0 + b1, b2, x);
        lemma_concat_contains(b0 + b1 + b2, b3, x);
        lemma_concat_contains(b0 + b1 + b2 + b3, b4, x);
    }
    lemma_single_block(!(1 <= first_name.len() <= 100), "first_name: length"@, "first_name: length"@);
    lemma_single_block(!(1 <= last_name.len() <= 100), "last_name: length"@, "last_name: length"@);
    lemma_single_block(!validator_email(email), "email: email"@, "email: email"@);
    lemma_single_block(email.len() > 255, "email: length"@, "email: length"@);
    lemma_single_block(!(1 <= phone.len() <= 50), "phone: length"@, "phone: length"@);
    lemma_concat_contains(b0, b1, "first_name: length"@);
    lemma_concat_contains(b0 + b1, b2, "first_name: length"@);
    lemma_concat_contains(b0 + b1 + b2, b3, "first_name: length"@);
    lemma_concat_contains(b0 + b1 + b2 + b3, b4, "first_name: length"@);
}

/// A calendar price is accepted exactly when it is not negative, by its
/// sign or by its value; a negative one is reported on the price.
pub proof fn law_price_rule(price: Amount)
    ensures
        (price_details("price"@, price)).len() == 0 <==> (!((price.negative || price.cents < 0))),
        (price_details("price"@, price)).contains("price: must_be_non_negative"@) <==> ((price.negative || price.cents < 0)),
{
    reveal_strlit(": ");
    reveal_strlit("must_be_non_negative");
    reveal_strlit("price");
    reveal_strlit("price: must_be_non_negative");
    let b0 = price_details("price"@, price);
    assert(detail("price"@, "must_be_non_negative"@) =~= "price: must_be_non_negative"@);
    assert(b0 == (if (price.negative || price.cents < 0) { seq!["price: must_be_non_negative"@] } else { Seq::<Seq<char>>::empty() }));
    let all = price_details("price"@, price);
    assert(all == b0);
    assert forall|x: Seq<char>| all.contains(x) <==> ((((price.negative || price.cents < 0)) && x == "price: must_be_non_negative"@)) by {
        lemma_single_block((price.negative || price.cents < 0), "price: must_be_non_negative"@, x);
    }
    lemma_single_block((price.negative || price.cents < 0), "price: must_be_non_negative"@, "price: must_be_non_negative"@);
}

} // verus!
