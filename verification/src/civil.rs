//! Civil dates, and the time zones that tie them to instants.
//!
//! A date is modelled by its day number, counted from 1970-01-01. What a time zone does is left to
//! the time-zone database compiled into `jiff`: [`local_fields`] and [`civil_second`] name its
//! answers.
use vstd::prelude::*;

verus! {

pub const MIN_YEAR: i16 = -9999;

pub const MAX_YEAR: i16 = 9999;

/// A date of the proleptic Gregorian calendar.
#[derive(Debug, Clone, Copy, PartialEq, Eq, Structural)]
pub struct CivilDate {
    pub year: i16,
    pub month: i8,
    pub day: i8,
}

pub open spec fn is_leap(year: int) -> bool {
    year % 4 == 0 && (year % 100 != 0 || year % 400 == 0)
}

pub open spec fn month_length(year: int, month: int) -> int {
    if month == 2 {
        if is_leap(year) {
            29
        } else {
            28
        }
    } else if month == 4 || month == 6 || month == 9 || month == 11 {
        30
    } else {
        31
    }
}

/// The days of a year before the first of `month`.
pub open spec fn days_before_month(year: int, month: int) -> int {
    let leap: int = if is_leap(year) {
        1
    } else {
        0
    };
    if month <= 1 {
        0
    } else if month == 2 {
        31
    } else if month == 3 {
        59 + leap
    } else if month == 4 {
        90 + leap
    } else if month == 5 {
        120 + leap
    } else if month == 6 {
        151 + leap
    } else if month == 7 {
        181 + leap
    } else if month == 8 {
        212 + leap
    } else if month == 9 {
        243 + leap
    } else if month == 10 {
        273 + leap
    } else if month == 11 {
        304 + leap
    } else {
        334 + leap
    }
}

/// The day number of January 1 of a year; there were 477 leap years before 1970.
#[verifier::opaque]
pub open spec fn year_start(year: int) -> int {
    365 * (year - 1970) + ((year - 1) / 4 - (year - 1) / 100 + (year - 1) / 400 - 477)
}

pub open spec fn is_date(year: int, month: int, day: int) -> bool {
    &&& MIN_YEAR <= year <= MAX_YEAR
    &&& 1 <= month <= 12
    &&& 1 <= day <= month_length(year, month)
}

pub open spec fn fields_number(year: int, month: int, day: int) -> int {
    year_start(year) + days_before_month(year, month) + (day - 1)
}

/// The day number of the first representable date.
pub open spec fn min_number() -> int {
    fields_number(MIN_YEAR as int, 1, 1)
}

/// The day number of the last representable date.
pub open spec fn max_number() -> int {
    fields_number(MAX_YEAR as int, 12, 31)
}

impl CivilDate {
    pub open spec fn valid(self) -> bool {
        is_date(self.year as int, self.month as int, self.day as int)
    }

    /// Days since 1970-01-01.
    pub open spec fn number(self) -> int {
        fields_number(self.year as int, self.month as int, self.day as int)
    }

    /// Months since January of year 0.
    pub open spec fn month_number(self) -> int {
        self.year * 12 + (self.month - 1)
    }
}

/// A year ends where the next one starts.
proof fn lemma_year_length(year: int)
    ensures
        year_start(year + 1) == year_start(year) + if is_leap(year) {
            366int
        } else {
            365int
        },
{
    lemma_one_more(year, 4);
    lemma_one_more(year, 100);
    lemma_one_more(year, 400);
    lemma_divides(year, 4, 25);
    lemma_divides(year, 100, 4);
    let (a, b, c) = (year / 4, year / 100, year / 400);
    let (x, y, z) = ((year - 1) / 4, (year - 1) / 100, (year - 1) / 400);
    assert(year_start(year) == 365 * (year - 1970) + (x - y + z - 477)) by {
        reveal(year_start);
    }
    assert(year_start(year + 1) == 365 * (year + 1 - 1970) + (a - b + c - 477)) by {
        reveal(year_start);
        assert(year + 1 - 1 == year);
    }
}

/// A multiple of a product is a multiple of its factor.
proof fn lemma_divides(n: int, d: int, k: int)
    requires
        d > 0,
        k > 0,
    ensures
        n % (d * k) == 0 ==> n % d == 0,
{
    if n % (d * k) == 0 {
        let q = n / (d * k);
        assert(d * k > 0) by (nonlinear_arith)
            requires
                d > 0,
                k > 0,
        ;
        vstd::arithmetic::div_mod::lemma_fundamental_div_mod(n, d * k);
        assert(n == (k * q) * d + 0) by (nonlinear_arith)
            requires
                n == (d * k) * q,
        ;
        vstd::arithmetic::div_mod::lemma_fundamental_div_mod_converse(n, d, k * q, 0);
    }
}

/// The quotient goes up by one at each multiple.
proof fn lemma_one_more(n: int, d: int)
    requires
        d > 0,
    ensures
        n / d == (n - 1) / d + if n % d == 0 {
            1int
        } else {
            0
        },
{
    let q = (n - 1) / d;
    let r = (n - 1) % d;
    vstd::arithmetic::div_mod::lemma_fundamental_div_mod(n - 1, d);
    if r + 1 == d {
        assert(n == (q + 1) * d + 0) by (nonlinear_arith)
            requires
                n - 1 == d * q + r,
                r + 1 == d,
        ;
        vstd::arithmetic::div_mod::lemma_fundamental_div_mod_converse(n, d, q + 1, 0);
    } else {
        assert(n == q * d + (r + 1)) by (nonlinear_arith)
            requires
                n - 1 == d * q + r,
        ;
        vstd::arithmetic::div_mod::lemma_fundamental_div_mod_converse(n, d, q, r + 1);
    }
}

proof fn lemma_year_start_increases(a: int, b: int)
    requires
        a <= b,
    ensures
        year_start(a) + 365 * (b - a) <= year_start(b),
    decreases b - a,
{
    if a < b {
        lemma_year_length(b - 1);
        lemma_year_start_increases(a, b - 1);
    }
}

/// The day number of a date lies within its year.
pub proof fn lemma_number_in_year(d: CivilDate)
    requires
        d.valid(),
    ensures
        year_start(d.year as int) <= d.number() < year_start(d.year + 1),
        min_number() <= d.number() <= max_number(),
{
    lemma_year_length(d.year as int);
    lemma_year_start_increases(MIN_YEAR as int, d.year as int);
    lemma_year_start_increases(d.year + 1, MAX_YEAR + 1);
    lemma_year_length(MAX_YEAR as int);
}

/// The days that the arithmetic counts from, and how far it reaches.
pub proof fn lemma_number_bounds()
    ensures
        fields_number(1970, 1, 1) == 0,
        fields_number(1970, 1, 5) == 4,
        min_number() == -4_371_587,
        max_number() == 2_932_896,
{
    reveal(year_start);
}

/// Dates are ordered as their day numbers are.
pub proof fn number_orders_dates(a: CivilDate, b: CivilDate)
    requires
        a.valid(),
        b.valid(),
    ensures
        a.number() < b.number() <==> (a.year < b.year || a.year == b.year && (a.month < b.month
            || a.month == b.month && a.day < b.day)),
        a.number() == b.number() <==> a == b,
{
    lemma_number_in_year(a);
    lemma_number_in_year(b);
    if a.year < b.year {
        lemma_year_start_increases(a.year + 1, b.year as int);
    } else if b.year < a.year {
        lemma_year_start_increases(b.year + 1, a.year as int);
    }
}

/// The date with a given day number.
pub open spec fn date_of(number: int) -> CivilDate {
    choose|d: CivilDate| d.valid() && #[trigger] d.number() == number
}

/// A date is the date of its day number.
pub proof fn lemma_date_of(d: CivilDate)
    requires
        d.valid(),
    ensures
        date_of(d.number()) == d,
{
    number_orders_dates(date_of(d.number()), d);
}

/// Every day number in range is the number of a date.
pub proof fn lemma_date_exists(number: int)
    requires
        min_number() <= number <= max_number(),
    ensures
        date_of(number).valid(),
        date_of(number).number() == number,
    decreases number - min_number(),
{
    if number == min_number() {
        let first = CivilDate { year: MIN_YEAR, month: 1, day: 1 };
        assert(first.valid() && first.number() == number);
    } else {
        lemma_date_exists(number - 1);
        let d = date_of(number - 1);
        lemma_year_length(d.year as int);
        lemma_number_in_year(d);
        let next = if d.day < month_length(d.year as int, d.month as int) {
            CivilDate { year: d.year, month: d.month, day: (d.day + 1) as i8 }
        } else if d.month < 12 {
            CivilDate { year: d.year, month: (d.month + 1) as i8, day: 1 }
        } else {
            CivilDate { year: (d.year + 1) as i16, month: 1, day: 1 }
        };
        if d.year == MAX_YEAR && d.month == 12 && d.day == 31 {
            assert(d.number() == max_number());
        }
        assert(next.valid() && next.number() == number);
    }
}

/// A date from its fields: `None` for a day that the month does not have and for a year out of
/// range.
pub fn new_date(year: i16, month: i8, day: i8) -> (r: Option<CivilDate>)
    ensures
        r is Some <==> is_date(year as int, month as int, day as int),
        r matches Some(d) ==> d == (CivilDate { year, month, day }),
{
    if year < MIN_YEAR || year > MAX_YEAR || month < 1 || month > 12 || day < 1 {
        return None;
    }
    let y: i32 = year as i32 + 10_000;
    assert(y % 4 == (year as int) % 4);
    assert(y % 100 == (year as int) % 100);
    assert(y % 400 == (year as int) % 400);
    let leap = y % 4 == 0 && (y % 100 != 0 || y % 400 == 0);
    let length: i8 = if month == 2 {
        if leap {
            29
        } else {
            28
        }
    } else if month == 4 || month == 6 || month == 9 || month == 11 {
        30
    } else {
        31
    };
    if day > length {
        None
    } else {
        Some(CivilDate { year, month, day })
    }
}

/// `jiff::civil::Date::since` in days: the days from `reference` to `date`, negative where `date`
/// comes first.
#[verifier::external_body]
pub(crate) fn days_since(date: CivilDate, reference: CivilDate) -> (r: i32)
    requires
        date.valid(),
        reference.valid(),
    ensures
        r == date.number() - reference.number(),
{
    let from = jiff::civil::date(reference.year, reference.month, reference.day);
    jiff::civil::date(date.year, date.month, date.day)
        .since((jiff::Unit::Day, from))
        .expect("whole days between two dates")
        .get_days()
}

/// `jiff::civil::Date::checked_add` of a span of days: the date that many days later, or `None`
/// when that lies outside the years from -9999 to 9999. A span of more days than `jiff` can hold is
/// left out.
#[verifier::external_body]
pub(crate) fn add_days(date: CivilDate, days: i32) -> (r: Option<CivilDate>)
    requires
        date.valid(),
        -7_304_484 <= days <= 7_304_484,
    ensures
        r is Some <==> min_number() <= date.number() + days <= max_number(),
        r matches Some(d) ==> d.valid() && d.number() == date.number() + days,
{
    let span = jiff::Span::new().days(days);
    let date = jiff::civil::date(date.year, date.month, date.day).checked_add(span).ok()?;
    Some(CivilDate { year: date.year(), month: date.month(), day: date.day() })
}

/// `jiff::civil::Date::checked_add` of a span of months: the same day that many months later, or
/// the last day of that month when it is shorter; `None` when the year leaves the range from -9999
/// to 9999. A span of more months than `jiff` can hold is left out.
#[verifier::external_body]
pub(crate) fn add_months(date: CivilDate, months: i32) -> (r: Option<CivilDate>)
    requires
        date.valid(),
        -239_976 <= months <= 239_976,
    ensures
        r is Some <==> MIN_YEAR <= (date.month_number() + months) / 12 <= MAX_YEAR,
        r matches Some(d) ==> {
            &&& d.valid()
            &&& d.month_number() == date.month_number() + months
            &&& d.day == if date.day as int <= month_length(d.year as int, d.month as int) {
                date.day as int
            } else {
                month_length(d.year as int, d.month as int)
            }
        },
{
    let span = jiff::Span::new().months(months);
    let date = jiff::civil::date(date.year, date.month, date.day).checked_add(span).ok()?;
    Some(CivilDate { year: date.year(), month: date.month(), day: date.day() })
}

/// Whether `jiff`'s compiled-in database has a time zone of that name.
pub uninterp spec fn zone_known(name: Seq<char>) -> bool;

/// The identifier of a time zone in the spelling of `jiff`'s compiled-in database, which finds a zone
/// in any case; `None` for a zone without one.
pub uninterp spec fn zone_identifier(name: Seq<char>) -> Option<Seq<char>>;

/// The wall clock of a time zone at an instant, as `jiff`'s compiled-in database has it: year,
/// month, day, hour, minute and second.
pub uninterp spec fn local_fields(zone: Seq<char>, second: int) -> Option<(i16, i8, i8, i8, i8, i8)>;

/// The instant at which a time zone's wall clock shows a date, hour, minute, second and nanosecond,
/// in whole seconds, as `jiff` resolves it: the earlier one where the clock shows it twice, the one
/// as far past the jump where the clock skips it.
pub uninterp spec fn civil_second(
    zone: Seq<char>,
    fields: (i16, i8, i8, i8, i8, i8),
    nanos: int,
) -> Option<i64>;

/// `jiff::tz::TimeZoneDatabase::get` on the compiled-in database. `UTC` is always there.
#[verifier::external_body]
pub(crate) fn has_zone(name: &str) -> (r: bool)
    ensures
        r == zone_known(name@),
        name@ == "UTC"@ ==> r,
{
    jiff::tz::TimeZoneDatabase::bundled().get(name).is_ok()
}

/// `jiff::tz::TimeZone::iana_name` of a zone of the compiled-in database. That of `UTC` is `UTC`.
#[verifier::external_body]
fn iana_name(zone: &str) -> (r: Option<String>)
    ensures
        crate::commands::opt_text(r) == zone_identifier(zone@),
        zone@ == "UTC"@ ==> r is Some && r->0@ == "UTC"@,
{
    let tz = jiff::tz::TimeZoneDatabase::bundled().get(zone).ok()?;
    tz.iana_name().map(str::to_owned)
}

/// `jiff::Timestamp::to_zoned`: the wall clock in a zone of the compiled-in database. A known zone
/// has one for every instant from 1970 into 2106, and it shows a date and a time of day. In `UTC` a day
/// is 86,400 seconds.
#[verifier::external_body]
pub(crate) fn local_time(zone: &str, second: i64) -> (r: Option<(i16, i8, i8, i8, i8, i8)>)
    ensures
        r == local_fields(zone@, second as int),
        zone_known(zone@) && 0 <= second <= u32::MAX ==> r is Some,
        r matches Some((year, month, day, hour, minute, second)) ==> {
            &&& is_date(year as int, month as int, day as int)
            &&& 0 <= hour < 24
            &&& 0 <= minute < 60
            &&& 0 <= second < 60
        },
        zone@ == "UTC"@ && 0 <= second <= u32::MAX ==> {
            let f = r->0;
            fields_number(f.0 as int, f.1 as int, f.2 as int) * 86_400 + f.3 * 3_600 + f.4 * 60
                + f.5 == second
        },
{
    let tz = jiff::tz::TimeZoneDatabase::bundled().get(zone).ok()?;
    let at = jiff::Timestamp::from_second(second).ok()?.to_zoned(tz);
    Some((at.year(), at.month(), at.day(), at.hour(), at.minute(), at.second()))
}

/// `jiff::civil::DateTime::to_zoned`: the Unix second of a wall-clock reading in a zone of the
/// compiled-in database. `None` for an unknown zone and for an instant that `jiff` cannot hold. In
/// `UTC` a day is 86,400 seconds.
#[verifier::external_body]
pub(crate) fn instant_of(zone: &str, fields: (i16, i8, i8, i8, i8, i8), nanos: i32) -> (r: Option<
    i64,
>)
    requires
        0 <= nanos < 1_000_000_000,
        is_date(fields.0 as int, fields.1 as int, fields.2 as int),
        0 <= fields.3 < 24,
        0 <= fields.4 < 60,
        0 <= fields.5 < 60,
    ensures
        r == civil_second(zone@, fields, nanos as int),
        zone@ == "UTC"@ && 1970 <= fields.0 <= 2200 ==> r == Some(
            (fields_number(fields.0 as int, fields.1 as int, fields.2 as int) * 86_400 + fields.3
                * 3_600 + fields.4 * 60 + fields.5) as i64,
        ),
{
    let tz = jiff::tz::TimeZoneDatabase::bundled().get(zone).ok()?;
    let date = jiff::civil::date(fields.0, fields.1, fields.2);
    let at = date.at(fields.3, fields.4, fields.5, nanos).to_zoned(tz).ok()?;
    Some(at.timestamp().as_second())
}

/// The date that `jiff` reads from a text.
pub uninterp spec fn date_named(text: Seq<char>) -> Option<(i16, i8, i8)>;

/// `<jiff::civil::Date as FromStr>::from_str`: the date that a text such as `2020-08-31` names. It
/// is a date of the calendar.
#[verifier::external_body]
pub(crate) fn parse_date(text: &str) -> (r: Option<CivilDate>)
    ensures
        match date_named(text@) {
            Some((year, month, day)) => r == Some(CivilDate { year, month, day }),
            None => r is None,
        },
        r matches Some(d) ==> d.valid(),
{
    let date: jiff::civil::Date = text.parse().ok()?;
    Some(CivilDate { year: date.year(), month: date.month(), day: date.day() })
}

/// The Unix second of the instant that `jiff` reads from a text.
pub uninterp spec fn instant_named(text: Seq<char>) -> Option<i64>;

/// `<jiff::Timestamp as FromStr>::from_str`: the Unix second of an instant such as
/// `2024-01-01T12:00:00Z`, its fraction dropped.
#[verifier::external_body]
pub(crate) fn parse_instant(text: &str) -> (r: Option<i64>)
    ensures
        r == instant_named(text@),
{
    let at: jiff::Timestamp = text.parse().ok()?;
    Some(at.as_second())
}

/// The wall-clock reading that `jiff` reads from a text: year, month, day, hour, minute and second,
/// and the nanoseconds.
pub uninterp spec fn reading_named(text: Seq<char>) -> Option<((i16, i8, i8, i8, i8, i8), i32)>;

/// `<jiff::civil::DateTime as FromStr>::from_str`: the wall-clock reading that a text such as
/// `2024-01-01T09:30:00` names. It shows a date of the calendar and a time of day.
#[verifier::external_body]
pub(crate) fn parse_reading(text: &str) -> (r: Option<((i16, i8, i8, i8, i8, i8), i32)>)
    ensures
        r == reading_named(text@),
        r matches Some((f, nanos)) ==> {
            &&& is_date(f.0 as int, f.1 as int, f.2 as int)
            &&& 0 <= f.3 < 24
            &&& 0 <= f.4 < 60
            &&& 0 <= f.5 < 60
            &&& 0 <= nanos < 1_000_000_000
        },
{
    let at: jiff::civil::DateTime = text.parse().ok()?;
    let fields = (at.year(), at.month(), at.day(), at.hour(), at.minute(), at.second());
    Some((fields, at.subsec_nanosecond()))
}

/// A number below a hundred in two digits.
pub open spec fn two_digits(n: int) -> Seq<char> {
    seq![crate::text::digit_char((n / 10) as nat), crate::text::digit_char((n % 10) as nat)]
}

/// How far a zone's wall clock is ahead of `UTC` at an instant, in seconds.
pub open spec fn zone_offset(zone: Seq<char>, second: int) -> int {
    let f = local_fields(zone, second)->0;
    fields_number(f.0 as int, f.1 as int, f.2 as int) * 86_400 + f.3 * 3_600 + f.4 * 60 + f.5
        - second
}

/// An offset as sign, hours and minutes, and seconds where there are any.
pub open spec fn offset_text(offset: int) -> Seq<char> {
    let n = if offset < 0 {
        -offset
    } else {
        offset
    };
    seq![
        if offset < 0 {
            '-'
        } else {
            '+'
        },
    ] + two_digits(n / 3_600) + seq![':'] + two_digits((n / 60) % 60) + if n % 60 != 0 {
        seq![':'] + two_digits(n % 60)
    } else {
        Seq::empty()
    }
}

/// The wall clock of a zone at an instant, as `2015-01-02T09:30:00`.
pub open spec fn clock_text(zone: Seq<char>, second: int) -> Seq<char> {
    let f = local_fields(zone, second)->0;
    two_digits(f.0 as int / 100) + two_digits(f.0 as int % 100) + seq!['-'] + two_digits(f.1 as int)
        + seq!['-'] + two_digits(f.2 as int) + seq!['T'] + two_digits(f.3 as int) + seq![':'] + two_digits(
        f.4 as int,
    ) + seq![':'] + two_digits(f.5 as int)
}

/// `jiff::Zoned::strftime` with the two formats in use: the wall clock in a zone of the compiled-in
/// database, with the zone's offset behind it for `%:z`, or with the letter `Z`. From 1970 into 2106
/// every zone's year has four digits.
#[verifier::external_body]
fn time_text(zone: &str, second: u32, format: &str) -> (r: String)
    requires
        zone_known(zone@),
        format@ == "%Y-%m-%dT%H:%M:%S%:z"@ || format@ == "%Y-%m-%dT%H:%M:%SZ"@,
    ensures
        format@ == "%Y-%m-%dT%H:%M:%S%:z"@ ==> r@ == clock_text(zone@, second as int) + offset_text(
            zone_offset(zone@, second as int),
        ),
        format@ == "%Y-%m-%dT%H:%M:%SZ"@ ==> r@ == clock_text(zone@, second as int) + seq!['Z'],
{
    let tz = jiff::tz::TimeZoneDatabase::bundled().get(zone).expect("a known zone");
    let at = jiff::Timestamp::from_second(second as i64).expect("an instant in range").to_zoned(tz);
    at.strftime(format).to_string()
}

/// A time zone of the database.
#[derive(Debug)]
pub struct Zone {
    name: String,
}

/// What a zone is called: its identifier, or `UTC` where it has none.
pub open spec fn zone_label(zone: Seq<char>) -> Seq<char> {
    match zone_identifier(zone) {
        Some(identifier) => identifier,
        None => "UTC"@,
    }
}

/// The local date at an instant.
pub open spec fn zone_date(zone: Seq<char>, time: int) -> CivilDate {
    let f = local_fields(zone, time)->0;
    CivilDate { year: f.0, month: f.1, day: f.2 }
}

/// The local minute of the day at an instant.
pub open spec fn zone_minute(zone: Seq<char>, time: int) -> int {
    let f = local_fields(zone, time)->0;
    f.3 * 60 + f.4
}

/// The instant of a local date and minute of the day, where it is a time that a file can hold.
pub open spec fn zone_instant(zone: Seq<char>, date: CivilDate, minute: int) -> Option<u32> {
    match civil_second(
        zone,
        (date.year, date.month, date.day, (minute / 60) as i8, (minute % 60) as i8, 0i8),
        0,
    ) {
        Some(second) => if 0 <= second <= u32::MAX {
            Some(second as u32)
        } else {
            None
        },
        None => None,
    }
}

impl View for Zone {
    type V = Seq<char>;

    closed spec fn view(&self) -> Seq<char> {
        self.name@
    }
}

impl Zone {
    #[verifier::type_invariant]
    pub open spec fn known(&self) -> bool {
        zone_known(self@)
    }

    /// The zone of that name, `None` when the database has none.
    pub fn get(name: &str) -> (r: Option<Zone>)
        ensures
            r is Some <==> zone_known(name@),
            r matches Some(z) ==> z@ == name@,
    {
        if has_zone(name) {
            Some(Zone { name: name.to_owned() })
        } else {
            None
        }
    }

    /// The zone `UTC`.
    pub fn utc() -> (r: Zone)
        ensures
            r@ == "UTC"@,
    {
        has_zone("UTC");
        Zone { name: "UTC".to_owned() }
    }

    /// What the zone is called: its identifier, or `UTC` where it has none.
    pub fn name(&self) -> (r: String)
        ensures
            r@ == zone_label(self@),
            self@ == "UTC"@ ==> r@ == "UTC"@,
    {
        match iana_name(self.name.as_str()) {
            Some(name) => name,
            None => "UTC".to_owned(),
        }
    }

    pub fn copy(&self) -> (r: Zone)
        ensures
            r@ == self@,
    {
        proof {
            use_type_invariant(self);
        }
        Zone { name: self.name.clone() }
    }

    /// The local date at an instant.
    pub fn date_at(&self, time: u32) -> (r: CivilDate)
        ensures
            r == zone_date(self@, time as int),
            r.valid(),
            self@ == "UTC"@ ==> r.number() == time as int / 86_400,
    {
        proof {
            use_type_invariant(self);
        }
        let f = local_time(self.name.as_str(), time as i64).unwrap();
        CivilDate { year: f.0, month: f.1, day: f.2 }
    }

    /// The local minute of the day at an instant.
    pub fn minute_at(&self, time: u32) -> (r: u32)
        ensures
            r == zone_minute(self@, time as int),
            r < 1_440,
    {
        proof {
            use_type_invariant(self);
        }
        let f = local_time(self.name.as_str(), time as i64).unwrap();
        f.3 as u32 * 60 + f.4 as u32
    }

    /// The Unix second of a local date and minute of the day; `None` when it is none.
    pub fn second_of(&self, date: CivilDate, minute: u32) -> (r: Option<i64>)
        requires
            date.valid(),
            minute < 1_440,
        ensures
            r == civil_second(
                self@,
                (
                    date.year,
                    date.month,
                    date.day,
                    (minute as int / 60) as i8,
                    (minute as int % 60) as i8,
                    0i8,
                ),
                0,
            ),
    {
        let hour: i8 = (minute / 60) as i8;
        let rest: i8 = (minute % 60) as i8;
        instant_of(self.name.as_str(), (date.year, date.month, date.day, hour, rest, 0), 0)
    }

    /// The Unix second of a wall-clock reading; `None` when it is none.
    pub fn second_at(&self, reading: ((i16, i8, i8, i8, i8, i8), i32)) -> (r: Option<i64>)
        requires
            is_date(reading.0.0 as int, reading.0.1 as int, reading.0.2 as int),
            0 <= reading.0.3 < 24,
            0 <= reading.0.4 < 60,
            0 <= reading.0.5 < 60,
            0 <= reading.1 < 1_000_000_000,
        ensures
            r == civil_second(self@, reading.0, reading.1 as int),
    {
        instant_of(self.name.as_str(), reading.0, reading.1)
    }

    /// The instant of a local date and minute of the day; `None` when it is not a time that a file
    /// can hold.
    pub fn instant(&self, date: CivilDate, minute: u32) -> (r: Option<u32>)
        requires
            date.valid(),
            minute < 1_440,
        ensures
            r == zone_instant(self@, date, minute as int),
            self@ == "UTC"@ && 0 <= date.number() <= 49_710 && minute == 0 ==> r == Some(
                (date.number() * 86_400) as u32,
            ),
    {
        proof {
            if 0 <= date.number() <= 49_710 {
                lemma_number_bounds();
                let first = CivilDate { year: 1970, month: 1, day: 1 };
                let last = CivilDate { year: 2200, month: 1, day: 1 };
                number_orders_dates(date, first);
                assert(last.number() > 49_710) by {
                    reveal(year_start);
                }
                number_orders_dates(date, last);
            }
        }
        let hour: i8 = (minute / 60) as i8;
        let rest: i8 = (minute % 60) as i8;
        match instant_of(self.name.as_str(), (date.year, date.month, date.day, hour, rest, 0), 0) {
            Some(second) => if 0 <= second && second <= u32::MAX as i64 {
                Some(second as u32)
            } else {
                None
            },
            None => None,
        }
    }

    /// An instant as an RFC 3339 timestamp in this zone, carrying a numeric offset (e.g.
    /// `2015-01-02T09:30:00-05:00`).
    pub fn stamp(&self, time: u32) -> (r: String)
        ensures
            r@ == clock_text(self@, time as int) + offset_text(zone_offset(self@, time as int)),
    {
        proof {
            use_type_invariant(self);
        }
        time_text(self.name.as_str(), time, "%Y-%m-%dT%H:%M:%S%:z")
    }

    /// An instant as this zone's wall clock followed by the letter `Z`.
    pub fn stamp_z(&self, time: u32) -> (r: String)
        ensures
            r@ == clock_text(self@, time as int) + seq!['Z'],
    {
        proof {
            use_type_invariant(self);
        }
        time_text(self.name.as_str(), time, "%Y-%m-%dT%H:%M:%SZ")
    }
}

} // verus!
