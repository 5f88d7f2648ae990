//! The dummy rows the seeder inserts for managers, addresses and houses,
//! drawn from the `fake` crate's generators and the `rand` crate.

use vstd::prelude::*;

use fake::faker::address::en::{BuildingNumber, CityName, PostCode, StateName, StreetName};
use fake::faker::lorem::en::{Sentence, Word};
use fake::faker::name::en::{FirstName, LastName};
use fake::faker::phone_number::en::PhoneNumber;
use fake::Fake;

use crate::chance::{choose_id, draw_ratio};
use crate::text::{chars_of, digit_char, digits_of, push_digits, push_str, string_of};

verus! {

/// What `char::to_uppercase` yields for a character.
pub uninterp spec fn char_uppercase(c: char) -> Seq<char>;

/// The upper-case mapping of a character (`char::to_uppercase`; one or more
/// characters, by Unicode's tables, where an ASCII lower-case letter maps to
/// its upper-case letter and any other ASCII character to itself).
#[verifier::external_body]
fn uppercase_of(c: char) -> (v: Vec<char>)
    ensures
        v@ == char_uppercase(c),
        'a' <= c <= 'z' ==> v@ == seq![((c as u32) - 32) as char],
        (c as u32) < 128 && !('a' <= c <= 'z') ==> v@ == seq![c],
{
    c.to_uppercase().collect()
}

/// What `str::to_lowercase` yields for a text.
pub uninterp spec fn str_lowercase(s: Seq<char>) -> Seq<char>;

/// The lower-case mapping of a text (`str::to_lowercase`).
#[verifier::external_body]
fn lowercase_of(s: &str) -> (r: String)
    ensures
        r@ == str_lowercase(s@),
{
    s.to_lowercase()
}

/// A text with its first character in upper case.
pub open spec fn capitalized(s: Seq<char>) -> Seq<char> {
    if s.len() == 0 {
        Seq::empty()
    } else {
        char_uppercase(s[0]) + s.drop_first()
    }
}

/// Whether a text is empty or starts with an ASCII character.
pub open spec fn starts_ascii(s: Seq<char>) -> bool {
    s.len() == 0 || (s[0] as u32) < 128
}

/// A text whose first character is an ASCII letter or other ASCII
/// character, with that character in upper case: a lower-case letter
/// becomes its upper-case letter, anything else stays.
pub open spec fn ascii_capitalized(s: Seq<char>) -> Seq<char> {
    if s.len() > 0 && 'a' <= s[0] <= 'z' {
        seq![((s[0] as u32) - 32) as char] + s.drop_first()
    } else {
        s
    }
}

/// Capitalizing a text that starts with an ASCII character keeps its
/// length, and doing it twice changes nothing more.
pub proof fn law_ascii_capitalize_keeps_length_and_settles(s: Seq<char>)
    requires
        starts_ascii(s),
    ensures
        ascii_capitalized(s).len() == s.len(),
        starts_ascii(ascii_capitalized(s)),
        ascii_capitalized(ascii_capitalized(s)) == ascii_capitalized(s),
{
    if s.len() > 0 && 'a' <= s[0] <= 'z' {
        let t = ascii_capitalized(s);
        assert(t[0] == ((s[0] as u32) - 32) as char);
        assert('A' <= t[0] <= 'Z');
    }
}

/// The text with its first character mapped to upper case.
pub fn capitalize(s: &str) -> (r: String)
    ensures
        r@ == capitalized(s@),
        starts_ascii(s@) ==> r@ == ascii_capitalized(s@),
{
    let cs = chars_of(s);
    if cs.len() == 0 {
        let empty: Vec<char> = Vec::new();
        assert(empty@ =~= capitalized(s@));
        return string_of(&empty);
    }
    let mut v = uppercase_of(cs[0]);
    let ghost head = v@;
    let mut i: usize = 1;
    while i < cs.len()
        invariant
            cs@ == s@,
            1 <= i <= cs.len(),
            head == char_uppercase(cs@[0]),
            v@ == head + cs@.subrange(1, i as int),
        decreases cs.len() - i,
    {
        v.push(cs[i]);
        assert(cs@.subrange(1, i + 1) =~= cs@.subrange(1, i as int).push(cs@[i as int]));
        i = i + 1;
    }
    assert(cs@.subrange(1, cs.len() as int) =~= s@.drop_first());
    assert(starts_ascii(s@) ==> v@ =~= ascii_capitalized(s@));
    string_of(&v)
}

/// The seeded e-mail of manager number `index`, unique by the number.
pub open spec fn manager_email_text(first: Seq<char>, last: Seq<char>, index: nat) -> Seq<char> {
    str_lowercase(first) + "."@ + str_lowercase(last) + "."@ + digits_of(index)
        + "@managers.example.com"@
}

/// `first.last.index@managers.example.com`, names in lower case.
pub fn manager_email(first: &str, last: &str, index: usize) -> (r: String)
    ensures
        r@ == manager_email_text(first@, last@, index as nat),
{
    let mut v: Vec<char> = Vec::new();
    let lf = lowercase_of(first);
    let ll = lowercase_of(last);
    push_str(&mut v, lf.as_str());
    push_str(&mut v, ".");
    push_str(&mut v, ll.as_str());
    push_str(&mut v, ".");
    push_digits(index as u64, &mut v);
    push_str(&mut v, "@managers.example.com");
    assert(v@ =~= manager_email_text(first@, last@, index as nat));
    string_of(&v)
}

/// The seeded name of a house: `Villa ` and a capitalized word.
pub fn house_name(word: &str) -> (r: String)
    ensures
        r@ == "Villa "@ + capitalized(word@),
        starts_ascii(word@) ==> r@ == "Villa "@ + ascii_capitalized(word@),
{
    let c = capitalize(word);
    let mut v: Vec<char> = Vec::new();
    push_str(&mut v, "Villa ");
    push_str(&mut v, c.as_str());
    string_of(&v)
}

/// A fake first name (`fake::faker::name::en::FirstName`).
#[verifier::external_body]
fn fake_first_name() -> String {
    FirstName().fake::<String>()
}

/// A fake last name (`fake::faker::name::en::LastName`).
#[verifier::external_body]
fn fake_last_name() -> String {
    LastName().fake::<String>()
}

/// A fake phone number (`fake::faker::phone_number::en::PhoneNumber`).
#[verifier::external_body]
fn fake_phone() -> String {
    PhoneNumber().fake::<String>()
}

/// A fake street name (`fake::faker::address::en::StreetName`).
#[verifier::external_body]
fn fake_street() -> String {
    StreetName().fake::<String>()
}

/// A fake building number (`fake::faker::address::en::BuildingNumber`).
#[verifier::external_body]
fn fake_building_number() -> String {
    BuildingNumber().fake::<String>()
}

/// A fake post code (`fake::faker::address::en::PostCode`).
#[verifier::external_body]
fn fake_postcode() -> String {
    PostCode().fake::<String>()
}

/// A fake city name (`fake::faker::address::en::CityName`).
#[verifier::external_body]
fn fake_city() -> String {
    CityName().fake::<String>()
}

/// A fake state name (`fake::faker::address::en::StateName`).
#[verifier::external_body]
fn fake_state() -> String {
    StateName().fake::<String>()
}

/// A fake word (`fake::faker::lorem::en::Word`).
#[verifier::external_body]
fn fake_word() -> String {
    Word().fake::<String>()
}

/// A fake sentence of 8 to 15 words (`fake::faker::lorem::en::Sentence`).
#[verifier::external_body]
fn fake_sentence() -> String {
    Sentence(8..16).fake::<String>()
}

/// A seeded manager.
#[derive(Clone, Debug)]
pub struct ManagerRow {
    pub first_name: String,
    pub last_name: String,
    pub email: String,
    pub phone: String,
}

/// The managers numbered `first..first + count`, with fake names and
/// phones and the e-mail their number makes unique.
pub fn plan_manager_rows(first: usize, count: usize) -> (rows: Vec<ManagerRow>)
    requires
        first + count <= usize::MAX,
    ensures
        rows@.len() == count,
        forall|k: int|
            0 <= k < count ==> (#[trigger] rows@[k]).email@ == manager_email_text(
                rows@[k].first_name@,
                rows@[k].last_name@,
                (first + k) as nat,
            ),
{
    let mut rows: Vec<ManagerRow> = Vec::new();
    let mut k: usize = 0;
    while k < count
        invariant
            first + count <= usize::MAX,
            k <= count,
            rows@.len() == k,
            forall|j: int|
                0 <= j < k ==> (#[trigger] rows@[j]).email@ == manager_email_text(
                    rows@[j].first_name@,
                    rows@[j].last_name@,
                    (first + j) as nat,
                ),
        decreases count - k,
    {
        let first_name = fake_first_name();
        let last_name = fake_last_name();
        let phone = fake_phone();
        let email = manager_email(first_name.as_str(), last_name.as_str(), first + k);
        rows.push(ManagerRow { first_name, last_name, email, phone });
        k = k + 1;
    }
    rows
}

proof fn lemma_digits_shape(n: nat)
    ensures
        digits_of(n).len() >= 1,
        forall|k: int| 0 <= k < digits_of(n).len() ==> #[trigger] digits_of(n)[k] != '.',
    decreases n,
{
    if n >= 10 {
        lemma_digits_shape(n / 10);
        let d = digits_of(n);
        assert forall|k: int| 0 <= k < d.len() implies #[trigger] d[k] != '.' by {
            if k < d.len() - 1 {
                assert(d[k] == digits_of(n / 10)[k]);
            }
        }
    }
}

proof fn lemma_digit_char_injective(a: int, b: int)
    requires
        0 <= a < 10,
        0 <= b < 10,
        digit_char(a) == digit_char(b),
    ensures
        a == b,
{
}

proof fn lemma_digits_injective(i: nat, j: nat)
    requires
        digits_of(i) == digits_of(j),
    ensures
        i == j,
    decreases i,
{
    lemma_digits_shape(i);
    lemma_digits_shape(j);
    if i >= 10 && j >= 10 {
        let a = digits_of(i);
        let b = digits_of(j);
        assert(a.drop_last() == digits_of(i / 10));
        assert(b.drop_last() == digits_of(j / 10));
        lemma_digits_injective(i / 10, j / 10);
        assert(a.last() == b.last());
        assert(a.last() == digit_char((i % 10) as int));
        assert(b.last() == digit_char((j % 10) as int));
        lemma_digit_char_injective((i % 10) as int, (j % 10) as int);
    } else if i < 10 && j < 10 {
        assert(digits_of(i)[0] == digit_char(i as int));
        assert(digits_of(j)[0] == digit_char(j as int));
        lemma_digit_char_injective(i as int, j as int);
    } else if i >= 10 {
        lemma_digits_shape(i / 10);
        assert(digits_of(i).len() >= 2);
    } else if j >= 10 {
        lemma_digits_shape(j / 10);
        assert(digits_of(j).len() >= 2);
    }
}

/// Seeded managers of different numbers never share an e-mail, whatever
/// their names: the number is what follows the last dot before the domain.
pub proof fn law_manager_emails_unique(
    first1: Seq<char>,
    last1: Seq<char>,
    i: nat,
    first2: Seq<char>,
    last2: Seq<char>,
    j: nat,
)
    requires
        i != j,
    ensures
        manager_email_text(first1, last1, i) != manager_email_text(first2, last2, j),
{
    let s = "@managers.example.com"@;
    let p1 = str_lowercase(first1) + "."@ + str_lowercase(last1) + "."@;
    let p2 = str_lowercase(first2) + "."@ + str_lowercase(last2) + "."@;
    let d1 = digits_of(i);
    let d2 = digits_of(j);
    let e1 = manager_email_text(first1, last1, i);
    let e2 = manager_email_text(first2, last2, j);
    assert(e1 == p1 + d1 + s);
    assert(e2 == p2 + d2 + s);
    lemma_digits_shape(i);
    lemma_digits_shape(j);
    if e1 == e2 {
        reveal_strlit(".");
        assert(p1.last() == '.') by {
            assert(p1 == (str_lowercase(first1) + "."@ + str_lowercase(last1)) + "."@);
        }
        assert(p2.last() == '.') by {
            assert(p2 == (str_lowercase(first2) + "."@ + str_lowercase(last2)) + "."@);
        }
        let n = e1.len();
        let t1 = e1.subrange(0, n - s.len());
        let t2 = e2.subrange(0, n - s.len());
        assert(t1 =~= p1 + d1);
        assert(t2 =~= p2 + d2);
        assert(t1 == t2);
        let m: int = t1.len() as int;
        if d1.len() == d2.len() {
            assert(d1 =~= t1.subrange(m - d1.len() as int, m));
            assert(d2 =~= t2.subrange(m - d2.len() as int, m));
            lemma_digits_injective(i, j);
        } else if d1.len() < d2.len() {
            let k = m - d1.len() - 1;
            assert(t1[k] == p1.last());
            assert(t2[k] == d2[d2.len() - d1.len() - 1]);
        } else {
            let k = m - d2.len() - 1;
            assert(t2[k] == p2.last());
            assert(t1[k] == d1[d1.len() - d2.len() - 1]);
        }
    }
}

/// A seeded address.
#[derive(Clone, Debug)]
pub struct AddressRow {
    pub street: String,
    pub number: String,
    pub postcode: String,
    pub city: String,
    pub province: Option<String>,
    pub country_id: i64,
}

/// `count` fake addresses, each in one of the given countries; about 3 in
/// 10 have a province. Refused without any country.
pub fn plan_address_rows(count: usize, country_ids: &Vec<i64>) -> (r: Result<
    Vec<AddressRow>,
    String,
>)
    ensures
        r is Err <==> country_ids@.len() == 0,
        r matches Err(m) ==> m@ == "addresses.seed needs at least one country"@,
        r matches Ok(rows) ==> rows@.len() == count && forall|k: int|
            0 <= k < count ==> country_ids@.contains(#[trigger] rows@[k].country_id),
{
    if country_ids.len() == 0 {
        let m = chars_of("addresses.seed needs at least one country");
        return Err(string_of(&m));
    }
    let mut rows: Vec<AddressRow> = Vec::new();
    let mut k: usize = 0;
    while k < count
        invariant
            country_ids@.len() > 0,
            k <= count,
            rows@.len() == k,
            forall|j: int| 0 <= j < k ==> country_ids@.contains(#[trigger] rows@[j].country_id),
        decreases count - k,
    {
        let street = fake_street();
        let number = fake_building_number();
        let postcode = fake_postcode();
        let city = fake_city();
        let province = if draw_ratio(3, 10) {
            Some(fake_state())
        } else {
            None
        };
        let country_id = match choose_id(country_ids.as_slice()) {
            Some(c) => c,
            None => country_ids[0],
        };
        rows.push(AddressRow { street, number, postcode, city, province, country_id });
        k = k + 1;
    }
    Ok(rows)
}

/// Whether a name is `Villa ` and a capitalized word.
pub open spec fn villa_name(name: Seq<char>) -> bool {
    exists|w: Seq<char>| name == "Villa "@ + #[trigger] capitalized(w)
}

/// Whether a seeded house is at one of the addresses, with one of the
/// managers, and named `Villa` and a capitalized word.
pub open spec fn house_row_drawn(row: HouseRow, address_ids: Seq<i64>, manager_ids: Seq<i64>) -> bool {
    &&& address_ids.contains(row.address_id)
    &&& manager_ids.contains(row.manager_id)
    &&& villa_name(row.name@)
}

/// A seeded house.
#[derive(Clone, Debug)]
pub struct HouseRow {
    pub name: String,
    pub description: String,
    pub address_id: i64,
    pub manager_id: i64,
}

/// `count` fake houses named `Villa` and a capitalized word, each at one of
/// the given addresses with one of the given managers. Refused without any
/// address or without any manager.
pub fn plan_house_rows(count: usize, address_ids: &Vec<i64>, manager_ids: &Vec<i64>) -> (r:
    Result<Vec<HouseRow>, String>)
    ensures
        r is Err <==> address_ids@.len() == 0 || manager_ids@.len() == 0,
        address_ids@.len() == 0 ==> (r matches Err(m) && m@
            == "houses.seed needs at least one address"@),
        address_ids@.len() > 0 && manager_ids@.len() == 0 ==> (r matches Err(m) && m@
            == "houses.seed needs at least one manager"@),
        r matches Ok(rows) ==> rows@.len() == count && forall|k: int|
            0 <= k < count ==> #[trigger] house_row_drawn(rows@[k], address_ids@, manager_ids@),
{
    if address_ids.len() == 0 {
        let m = chars_of("houses.seed needs at least one address");
        return Err(string_of(&m));
    }
    if manager_ids.len() == 0 {
        let m = chars_of("houses.seed needs at least one manager");
        return Err(string_of(&m));
    }
    let mut rows: Vec<HouseRow> = Vec::new();
    let mut k: usize = 0;
    while k < count
        invariant
            address_ids@.len() > 0,
            manager_ids@.len() > 0,
            k <= count,
            rows@.len() == k,
            forall|j: int|
                0 <= j < k ==> #[trigger] house_row_drawn(rows@[j], address_ids@, manager_ids@),
        decreases count - k,
    {
        let word = fake_word();
        let name = house_name(word.as_str());
        let description = fake_sentence();
        let address_id = match choose_id(address_ids.as_slice()) {
            Some(a) => a,
            None => address_ids[0],
        };
        let manager_id = match choose_id(manager_ids.as_slice()) {
            Some(m) => m,
            None => manager_ids[0],
        };
        rows.push(HouseRow { name, description, address_id, manager_id });
        assert(house_row_drawn(rows@[k as int], address_ids@, manager_ids@)) by {
            assert(rows@[k as int].name@ == "Villa "@ + capitalized(word@));
        }
        k = k + 1;
    }
    Ok(rows)
}

/// A country of the seeded list.
#[derive(Clone, Debug)]
pub struct CountryRow {
    pub name: String,
    pub iso_code: String,
}

/// The countries the seeder inserts: name and ISO 3166 code, in order.
pub open spec fn seeded_countries() -> Seq<(Seq<char>, Seq<char>)> {
    seq![
        ("Germany"@, "DE"@),
        ("Spain"@, "ES"@),
        ("France"@, "FR"@),
        ("Italy"@, "IT"@),
        ("Portugal"@, "PT"@),
        ("Netherlands"@, "NL"@),
        ("Belgium"@, "BE"@),
        ("Luxembourg"@, "LU"@),
        ("Austria"@, "AT"@),
        ("Switzerland"@, "CH"@),
        ("Denmark"@, "DK"@),
        ("Sweden"@, "SE"@),
        ("Norway"@, "NO"@),
        ("Finland"@, "FI"@),
        ("Iceland"@, "IS"@),
        ("Ireland"@, "IE"@),
        ("United Kingdom"@, "GB"@),
        ("Poland"@, "PL"@),
        ("Czechia"@, "CZ"@),
        ("Slovakia"@, "SK"@),
        ("Hungary"@, "HU"@),
        ("Slovenia"@, "SI"@),
        ("Croatia"@, "HR"@),
        ("Greece"@, "GR"@),
        ("Cyprus"@, "CY"@),
        ("Malta"@, "MT"@),
        ("Estonia"@, "EE"@),
        ("Latvia"@, "LV"@),
        ("Lithuania"@, "LT"@),
        ("Bulgaria"@, "BG"@),
        ("Romania"@, "RO"@),
        ("United States"@, "US"@),
        ("Canada"@, "CA"@),
        ("Mexico"@, "MX"@),
        ("Brazil"@, "BR"@),
        ("Argentina"@, "AR"@),
        ("Chile"@, "CL"@),
        ("Australia"@, "AU"@),
        ("New Zealand"@, "NZ"@),
        ("Japan"@, "JP"@),
        ("South Korea"@, "KR"@),
        ("Singapore"@, "SG"@),
        ("Thailand"@, "TH"@),
        ("India"@, "IN"@),
        ("South Africa"@, "ZA"@),
        ("Morocco"@, "MA"@),
        ("Egypt"@, "EG"@),
        ("Turkey"@, "TR"@),
        ("Israel"@, "IL"@),
        ("United Arab Emirates"@, "AE"@)
    ]
}

fn push_country(rows: &mut Vec<CountryRow>, name: &str, iso_code: &str)
    ensures
        final(rows)@.len() == old(rows)@.len() + 1,
        forall|i: int| 0 <= i < old(rows)@.len() ==> final(rows)@[i] == old(rows)@[i],
        final(rows)@.last().name@ == name@,
        final(rows)@.last().iso_code@ == iso_code@,
{
    let n = chars_of(name);
    let c = chars_of(iso_code);
    rows.push(CountryRow { name: string_of(&n), iso_code: string_of(&c) });
}

/// The rows of the seeded countries, in order.
pub fn seed_countries() -> (rows: Vec<CountryRow>)
    ensures
        rows@.len() == seeded_countries().len(),
        forall|i: int|
            0 <= i < rows@.len() ==> (#[trigger] rows@[i]).name@ == seeded_countries()[i].0
                && rows@[i].iso_code@ == seeded_countries()[i].1,
{
    let mut rows: Vec<CountryRow> = Vec::new();
    push_country(&mut rows, "Germany", "DE");
    push_country(&mut rows, "Spain", "ES");
    push_country(&mut rows, "France", "FR");
    push_country(&mut rows, "Italy", "IT");
    push_country(&mut rows, "Portugal", "PT");
    push_country(&mut rows, "Netherlands", "NL");
    push_country(&mut rows, "Belgium", "BE");
    push_country(&mut rows, "Luxembourg", "LU");
    push_country(&mut rows, "Austria", "AT");
    push_country(&mut rows, "Switzerland", "CH");
    push_country(&mut rows, "Denmark", "DK");
    push_country(&mut rows, "Sweden", "SE");
    push_country(&mut rows, "Norway", "NO");
    push_country(&mut rows, "Finland", "FI");
    push_country(&mut rows, "Iceland", "IS");
    push_country(&mut rows, "Ireland", "IE");
    push_country(&mut rows, "United Kingdom", "GB");
    push_country(&mut rows, "Poland", "PL");
    push_country(&mut rows, "Czechia", "CZ");
    push_country(&mut rows, "Slovakia", "SK");
    push_country(&mut rows, "Hungary", "HU");
    push_country(&mut rows, "Slovenia", "SI");
    push_country(&mut rows, "Croatia", "HR");
    push_country(&mut rows, "Greece", "GR");
    push_country(&mut rows, "Cyprus", "CY");
    push_country(&mut rows, "Malta", "MT");
    push_country(&mut rows, "Estonia", "EE");
    push_country(&mut rows, "Latvia", "LV");
    push_country(&mut rows, "Lithuania", "LT");
    push_country(&mut rows, "Bulgaria", "BG");
    push_country(&mut rows, "Romania", "RO");
    push_country(&mut rows, "United States", "US");
    push_country(&mut rows, "Canada", "CA");
    push_country(&mut rows, "Mexico", "MX");
    push_country(&mut rows, "Brazil", "BR");
    push_country(&mut rows, "Argentina", "AR");
    push_country(&mut rows, "Chile", "CL");
    push_country(&mut rows, "Australia", "AU");
    push_country(&mut rows, "New Zealand", "NZ");
    push_country(&mut rows, "Japan", "JP");
    push_country(&mut rows, "South Korea", "KR");
    push_country(&mut rows, "Singapore", "SG");
    push_country(&mut rows, "Thailand", "TH");
    push_country(&mut rows, "India", "IN");
    push_country(&mut rows, "South Africa", "ZA");
    push_country(&mut rows, "Morocco", "MA");
    push_country(&mut rows, "Egypt", "EG");
    push_country(&mut rows, "Turkey", "TR");
    push_country(&mut rows, "Israel", "IL");
    push_country(&mut rows, "United Arab Emirates", "AE");
    assert(rows@.len() == seeded_countries().len());
    rows
}

/// The ISO 3166-1 alpha-2 codes of the countries the seeder knows, as the
/// standard lists them: in the order of their codes.
pub open spec fn iso_alpha2_codes() -> Seq<(Seq<char>, Seq<char>)> {
    seq![
        ("United Arab Emirates"@, "AE"@),
        ("Argentina"@, "AR"@),
        ("Austria"@, "AT"@),
        ("Australia"@, "AU"@),
        ("Belgium"@, "BE"@),
        ("Bulgaria"@, "BG"@),
        ("Brazil"@, "BR"@),
        ("Canada"@, "CA"@),
        ("Switzerland"@, "CH"@),
        ("Chile"@, "CL"@),
        ("Cyprus"@, "CY"@),
        ("Czechia"@, "CZ"@),
        ("Germany"@, "DE"@),
        ("Denmark"@, "DK"@),
        ("Estonia"@, "EE"@),
        ("Egypt"@, "EG"@),
        ("Spain"@, "ES"@),
        ("Finland"@, "FI"@),
        ("France"@, "FR"@),
        ("United Kingdom"@, "GB"@),
        ("Greece"@, "GR"@),
        ("Croatia"@, "HR"@),
        ("Hungary"@, "HU"@),
        ("Ireland"@, "IE"@),
        ("Israel"@, "IL"@),
        ("India"@, "IN"@),
        ("Iceland"@, "IS"@),
        ("Italy"@, "IT"@),
        ("Japan"@, "JP"@),
        ("South Korea"@, "KR"@),
        ("Lithuania"@, "LT"@),
        ("Luxembourg"@, "LU"@),
        ("Latvia"@, "LV"@),
        ("Morocco"@, "MA"@),
        ("Malta"@, "MT"@),
        ("Mexico"@, "MX"@),
        ("Netherlands"@, "NL"@),
        ("Norway"@, "NO"@),
        ("New Zealand"@, "NZ"@),
        ("Poland"@, "PL"@),
        ("Portugal"@, "PT"@),
        ("Romania"@, "RO"@),
        ("Sweden"@, "SE"@),
        ("Singapore"@, "SG"@),
        ("Slovenia"@, "SI"@),
        ("Slovakia"@, "SK"@),
        ("Thailand"@, "TH"@),
        ("Turkey"@, "TR"@),
        ("United States"@, "US"@),
        ("South Africa"@, "ZA"@)
    ]
}

/// Every seeded country carries its ISO 3166-1 alpha-2 code, and every
/// country of that list is seeded.
pub proof fn law_seeded_countries_carry_iso_codes()
    ensures
        seeded_countries().len() == iso_alpha2_codes().len(),
        forall|i: int|
            0 <= i < seeded_countries().len() ==> iso_alpha2_codes().contains(
                #[trigger] seeded_countries()[i],
            ),
        forall|j: int|
            0 <= j < iso_alpha2_codes().len() ==> seeded_countries().contains(
                #[trigger] iso_alpha2_codes()[j],
            ),
{
    assert(seeded_countries()[0] == iso_alpha2_codes()[12]);
    assert(seeded_countries()[1] == iso_alpha2_codes()[16]);
    assert(seeded_countries()[2] == iso_alpha2_codes()[18]);
    assert(seeded_countries()[3] == iso_alpha2_codes()[27]);
    assert(seeded_countries()[4] == iso_alpha2_codes()[40]);
    assert(seeded_countries()[5] == iso_alpha2_codes()[36]);
    assert(seeded_countries()[6] == iso_alpha2_codes()[4]);
    assert(seeded_countries()[7] == iso_alpha2_codes()[31]);
    assert(seeded_countries()[8] == iso_alpha2_codes()[2]);
    assert(seeded_countries()[9] == iso_alpha2_codes()[8]);
    assert(seeded_countries()[10] == iso_alpha2_codes()[13]);
    assert(seeded_countries()[11] == iso_alpha2_codes()[42]);
    assert(seeded_countries()[12] == iso_alpha2_codes()[37]);
    assert(seeded_countries()[13] == iso_alpha2_codes()[17]);
    assert(seeded_countries()[14] == iso_alpha2_codes()[26]);
    assert(seeded_countries()[15] == iso_alpha2_codes()[23]);
    assert(seeded_countries()[16] == iso_alpha2_codes()[19]);
    assert(seeded_countries()[17] == iso_alpha2_codes()[39]);
    assert(seeded_countries()[18] == iso_alpha2_codes()[11]);
    assert(seeded_countries()[19] == iso_alpha2_codes()[45]);
    assert(seeded_countries()[20] == iso_alpha2_codes()[22]);
    assert(seeded_countries()[21] == iso_alpha2_codes()[44]);
    assert(seeded_countries()[22] == iso_alpha2_codes()[21]);
    assert(seeded_countries()[23] == iso_alpha2_codes()[20]);
    assert(seeded_countries()[24] == iso_alpha2_codes()[10]);
    assert(seeded_countries()[25] == iso_alpha2_codes()[34]);
    assert(seeded_countries()[26] == iso_alpha2_codes()[14]);
    assert(seeded_countries()[27] == iso_alpha2_codes()[32]);
    assert(seeded_countries()[28] == iso_alpha2_codes()[30]);
    assert(seeded_countries()[29] == iso_alpha2_codes()[5]);
    assert(seeded_countries()[30] == iso_alpha2_codes()[41]);
    assert(seeded_countries()[31] == iso_alpha2_codes()[48]);
    assert(seeded_countries()[32] == iso_alpha2_codes()[7]);
    assert(seeded_countries()[33] == iso_alpha2_codes()[35]);
    assert(seeded_countries()[34] == iso_alpha2_codes()[6]);
    assert(seeded_countries()[35] == iso_alpha2_codes()[1]);
    assert(seeded_countries()[36] == iso_alpha2_codes()[9]);
    assert(seeded_countries()[37] == iso_alpha2_codes()[3]);
    assert(seeded_countries()[38] == iso_alpha2_codes()[38]);
    assert(seeded_countries()[39] == iso_alpha2_codes()[28]);
    assert(seeded_countries()[40] == iso_alpha2_codes()[29]);
    assert(seeded_countries()[41] == iso_alpha2_codes()[43]);
    assert(seeded_countries()[42] == iso_alpha2_codes()[46]);
    assert(seeded_countries()[43] == iso_alpha2_codes()[25]);
    assert(seeded_countries()[44] == iso_alpha2_codes()[49]);
    assert(seeded_countries()[45] == iso_alpha2_codes()[33]);
    assert(seeded_countries()[46] == iso_alpha2_codes()[15]);
    assert(seeded_countries()[47] == iso_alpha2_codes()[47]);
    assert(seeded_countries()[48] == iso_alpha2_codes()[24]);
    assert(seeded_countries()[49] == iso_alpha2_codes()[0]);
    assert forall|i: int| 0 <= i < seeded_countries().len() implies iso_alpha2_codes().contains(
        #[trigger] seeded_countries()[i],
    ) by {
    }
    assert(iso_alpha2_codes()[0] == seeded_countries()[49]);
    assert(iso_alpha2_codes()[1] == seeded_countries()[35]);
    assert(iso_alpha2_codes()[2] == seeded_countries()[8]);
    assert(iso_alpha2_codes()[3] == seeded_countries()[37]);
    assert(iso_alpha2_codes()[4] == seeded_countries()[6]);
    assert(iso_alpha2_codes()[5] == seeded_countries()[29]);
    assert(iso_alpha2_codes()[6] == seeded_countries()[34]);
    assert(iso_alpha2_codes()[7] == seeded_countries()[32]);
    assert(iso_alpha2_codes()[8] == seeded_countries()[9]);
    assert(iso_alpha2_codes()[9] == seeded_countries()[36]);
    assert(iso_alpha2_codes()[10] == seeded_countries()[24]);
    assert(iso_alpha2_codes()[11] == seeded_countries()[18]);
    assert(iso_alpha2_codes()[12] == seeded_countries()[0]);
    assert(iso_alpha2_codes()[13] == seeded_countries()[10]);
    assert(iso_alpha2_codes()[14] == seeded_countries()[26]);
    assert(iso_alpha2_codes()[15] == seeded_countries()[46]);
    assert(iso_alpha2_codes()[16] == seeded_countries()[1]);
    assert(iso_alpha2_codes()[17] == seeded_countries()[13]);
    assert(iso_alpha2_codes()[18] == seeded_countries()[2]);
    assert(iso_alpha2_codes()[19] == seeded_countries()[16]);
    assert(iso_alpha2_codes()[20] == seeded_countries()[23]);
    assert(iso_alpha2_codes()[21] == seeded_countries()[22]);
    assert(iso_alpha2_codes()[22] == seeded_countries()[20]);
    assert(iso_alpha2_codes()[23] == seeded_countries()[15]);
    assert(iso_alpha2_codes()[24] == seeded_countries()[48]);
    assert(iso_alpha2_codes()[25] == seeded_countries()[43]);
    assert(iso_alpha2_codes()[26] == seeded_countries()[14]);
    assert(iso_alpha2_codes()[27] == seeded_countries()[3]);
    assert(iso_alpha2_codes()[28] == seeded_countries()[39]);
    assert(iso_alpha2_codes()[29] == seeded_countries()[40]);
    assert(iso_alpha2_codes()[30] == seeded_countries()[28]);
    assert(iso_alpha2_codes()[31] == seeded_countries()[7]);
    assert(iso_alpha2_codes()[32] == seeded_countries()[27]);
    assert(iso_alpha2_codes()[33] == seeded_countries()[45]);
    assert(iso_alpha2_codes()[34] == seeded_countries()[25]);
    assert(iso_alpha2_codes()[35] == seeded_countries()[33]);
    assert(iso_alpha2_codes()[36] == seeded_countries()[5]);
    assert(iso_alpha2_codes()[37] == seeded_countries()[12]);
    assert(iso_alpha2_codes()[38] == seeded_countries()[38]);
    assert(iso_alpha2_codes()[39] == seeded_countries()[17]);
    assert(iso_alpha2_codes()[40] == seeded_countries()[4]);
    assert(iso_alpha2_codes()[41] == seeded_countries()[30]);
    assert(iso_alpha2_codes()[42] == seeded_countries()[11]);
    assert(iso_alpha2_codes()[43] == seeded_countries()[41]);
    assert(iso_alpha2_codes()[44] == seeded_countries()[21]);
    assert(iso_alpha2_codes()[45] == seeded_countries()[19]);
    assert(iso_alpha2_codes()[46] == seeded_countries()[42]);
    assert(iso_alpha2_codes()[47] == seeded_countries()[47]);
    assert(iso_alpha2_codes()[48] == seeded_countries()[31]);
    assert(iso_alpha2_codes()[49] == seeded_countries()[44]);
    assert forall|j: int| 0 <= j < iso_alpha2_codes().len() implies seeded_countries().contains(
        #[trigger] iso_alpha2_codes()[j],
    ) by {
    }
}

} // verus!
