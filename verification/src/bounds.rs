//! The bounds of a time window, as they are typed: dates, date-times, instants and epoch seconds.
use vstd::prelude::*;

use crate::civil::{add_days, parse_date, parse_instant, parse_reading, CivilDate, Zone};
use crate::text::{chars_of, from_decimal, has_char, text_of};

verus! {

/// Why a text bounds no window.
#[derive(Debug, Clone, Copy, PartialEq, Eq, Structural)]
pub enum BoundError {
    /// The instant lies outside what a file can hold.
    OutOfRange,
    /// The date or the wall-clock reading is no instant in the time zone.
    NotLocal,
    /// The text is no date, date-time, instant or epoch second.
    Invalid,
}

/// The text without its commas.
pub open spec fn ungrouped(s: Seq<char>) -> Seq<char>
    decreases s.len(),
{
    if s.len() == 0 {
        s
    } else if s.last() == ',' {
        ungrouped(s.drop_last())
    } else {
        ungrouped(s.drop_last()).push(s.last())
    }
}

/// The epoch second that a whole number stands for, its thousands grouped or not.
pub open spec fn epoch_named(value: Seq<char>) -> Option<int> {
    let digits = ungrouped(value);
    if digits.len() > 0 && crate::text::all_digits(digits) && crate::text::decimal_value(digits)
        <= i64::MAX {
        Some(crate::text::decimal_value(digits) as int)
    } else {
        None
    }
}

/// Reads a whole number, optionally comma-grouped (`1,778,078,433`), as a raw Unix epoch second.
pub fn parse_epoch_seconds(value: &str) -> (r: Option<i64>)
    ensures
        match epoch_named(value@) {
            Some(n) => r matches Some(second) && second == n,
            None => r is None,
        },
{
    let chars = chars_of(value);
    let mut digits: Vec<char> = Vec::new();
    let mut i: usize = 0;
    while i < chars.len()
        invariant
            i <= chars.len(),
            chars@ == value@,
            digits@ == ungrouped(value@.take(i as int)),
        decreases chars.len() - i,
    {
        assert(value@.take(i + 1).drop_last() =~= value@.take(i as int));
        if chars[i] != ',' {
            digits.push(chars[i]);
        }
        i += 1;
    }
    assert(value@.take(i as int) =~= value@);
    match from_decimal(digits.as_slice()) {
        Some(n) => if n <= i64::MAX as u64 {
            Some(n as i64)
        } else {
            None
        },
        None => None,
    }
}

/// The time that a file can hold for an epoch second.
pub open spec fn fitted(second: int) -> Result<u32, BoundError> {
    if 0 <= second <= u32::MAX {
        Ok(second as u32)
    } else {
        Err(BoundError::OutOfRange)
    }
}

fn fit(second: i64) -> (r: Result<u32, BoundError>)
    ensures
        r == fitted(second as int),
{
    if 0 <= second && second <= u32::MAX as i64 {
        Ok(second as u32)
    } else {
        Err(BoundError::OutOfRange)
    }
}

/// The second at which a date begins in a zone.
pub open spec fn midnight(date: CivilDate, zone: Seq<char>) -> Option<i64> {
    crate::civil::civil_second(zone, (date.year, date.month, date.day, 0i8, 0i8, 0i8), 0)
}

/// What a date bounds: its first second as a start; as an end the last second before the next day.
pub open spec fn day_bound(date: CivilDate, is_end: bool, zone: Seq<char>) -> Result<
    u32,
    BoundError,
> {
    if !is_end {
        match midnight(date, zone) {
            Some(second) => fitted(second as int),
            None => Err(BoundError::NotLocal),
        }
    } else if date.number() == crate::civil::max_number() {
        Err(BoundError::NotLocal)
    } else {
        match midnight(crate::civil::date_of(date.number() + 1), zone) {
            Some(second) => fitted(second - 1),
            None => Err(BoundError::NotLocal),
        }
    }
}

/// The bare date that a text names: one with no time of day in it.
pub open spec fn bare_date(value: Seq<char>) -> Option<CivilDate> {
    if value.contains(':') {
        None
    } else {
        match crate::civil::date_named(value) {
            Some((year, month, day)) => Some(CivilDate { year, month, day }),
            None => None,
        }
    }
}

/// What a text bounds. An instant or an epoch second is taken as it is; a date and a wall-clock
/// reading are taken in the zone.
pub open spec fn bound_named(value: Seq<char>, is_end: bool, zone: Seq<char>) -> Result<
    u32,
    BoundError,
> {
    match (crate::civil::instant_named(value), epoch_named(value), bare_date(value)) {
        (Some(second), _, _) => fitted(second as int),
        (None, Some(second), _) => fitted(second),
        (None, None, Some(date)) => day_bound(date, is_end, zone),
        (None, None, None) => match crate::civil::reading_named(value) {
            Some((fields, nanos)) => match crate::civil::civil_second(zone, fields, nanos as int) {
                Some(second) => fitted(second as int),
                None => Err(BoundError::NotLocal),
            },
            None => Err(BoundError::Invalid),
        },
    }
}

/// Parses a window bound into a UTC epoch second.
///
/// A value carrying an explicit UTC offset or `Z` is an absolute instant; a bare local date-time
/// (`2026-01-01T09:30:00`) or a bare date (`2026-01-01`) is interpreted in the exchange's time zone,
/// which is far less surprising for exchange data than UTC. A bare *end* date is inclusive,
/// expanding to the very end of that local day.
pub fn parse_time_bound(value: &str, is_end: bool, zone: &Zone) -> (r: Result<u32, BoundError>)
    ensures
        r == bound_named(value@, is_end, zone@),
{
    if let Some(second) = parse_instant(value) {
        return fit(second);
    }
    if let Some(second) = parse_epoch_seconds(value) {
        return fit(second);
    }
    // Before the date-times: a date alone is one of those too, at midnight.
    if !has_char(value, ':') {
        if let Some(date) = parse_date(value) {
            let day = if is_end {
                match add_days(date, 1) {
                    Some(next) => {
                        proof {
                            crate::civil::lemma_date_of(next);
                        }
                        next
                    },
                    None => {
                        proof {
                            crate::civil::lemma_number_in_year(date);
                        }
                        return Err(BoundError::NotLocal);
                    },
                }
            } else {
                date
            };
            return match zone.second_of(day, 0) {
                Some(second) => if is_end {
                    if second == i64::MIN {
                        Err(BoundError::OutOfRange)
                    } else {
                        fit(second - 1)
                    }
                } else {
                    fit(second)
                },
                None => Err(BoundError::NotLocal),
            };
        }
    }
    match parse_reading(value) {
        Some(reading) => match zone.second_at(reading) {
            Some(second) => fit(second),
            None => Err(BoundError::NotLocal),
        },
        None => Err(BoundError::Invalid),
    }
}

/// Parses both sides of a window; the start's error comes first.
pub fn parse_bounds(start: Option<&str>, end: Option<&str>, zone: &Zone) -> (r: Result<
    (Option<u32>, Option<u32>),
    BoundError,
>)
    ensures
        r == bounds_named(
            match start {
                Some(s) => Some(s@),
                None => None,
            },
            match end {
                Some(s) => Some(s@),
                None => None,
            },
            zone@,
        ),
{
    let first = match start {
        Some(value) => match parse_time_bound(value, false, zone) {
            Ok(t) => Some(t),
            Err(e) => return Err(e),
        },
        None => None,
    };
    let last = match end {
        Some(value) => match parse_time_bound(value, true, zone) {
            Ok(t) => Some(t),
            Err(e) => return Err(e),
        },
        None => None,
    };
    Ok((first, last))
}

/// One side of a window, where it is given.
pub open spec fn side_named(value: Option<Seq<char>>, is_end: bool, zone: Seq<char>) -> Result<
    Option<u32>,
    BoundError,
> {
    match value {
        None => Ok(None),
        Some(value) => match bound_named(value, is_end, zone) {
            Ok(t) => Ok(Some(t)),
            Err(e) => Err(e),
        },
    }
}

/// Both sides of a window.
pub open spec fn bounds_named(
    start: Option<Seq<char>>,
    end: Option<Seq<char>>,
    zone: Seq<char>,
) -> Result<(Option<u32>, Option<u32>), BoundError> {
    match (side_named(start, false, zone), side_named(end, true, zone)) {
        (Err(e), _) => Err(e),
        (Ok(_), Err(e)) => Err(e),
        (Ok(start), Ok(end)) => Ok((start, end)),
    }
}

/// A bare end date is inclusive: the second after its bound is the one at which the next day starts.
pub proof fn end_dates_are_inclusive(day: Seq<char>, next: Seq<char>, zone: Seq<char>)
    requires
        crate::civil::instant_named(day) is None,
        epoch_named(day) is None,
        crate::civil::instant_named(next) is None,
        epoch_named(next) is None,
        bare_date(day) is Some,
        bare_date(next) is Some,
        (bare_date(next)->0).valid(),
        (bare_date(next)->0).number() == (bare_date(day)->0).number() + 1,
        bound_named(day, true, zone) is Ok,
        bound_named(day, true, zone)->Ok_0 < u32::MAX,
    ensures
        bound_named(next, false, zone) == Ok::<u32, BoundError>(
            (bound_named(day, true, zone)->Ok_0 + 1) as u32,
        ),
{
    crate::civil::lemma_date_of(bare_date(next)->0);
}

/// An instant and an epoch second bound the same on either side, in every zone.
pub proof fn exact_bounds_are_not_expanded(
    value: Seq<char>,
    one: bool,
    other: bool,
    zone: Seq<char>,
    elsewhere: Seq<char>,
)
    requires
        crate::civil::instant_named(value) is Some || epoch_named(value) is Some,
    ensures
        bound_named(value, one, zone) == bound_named(value, other, elsewhere),
{
}

// ---- range tokens --------------------------------------------------------------------

/// Whether a text is some date, date-time or instant, or a bare epoch second.
pub open spec fn is_bound(value: Seq<char>) -> bool {
    ||| epoch_named(value) is Some
    ||| crate::civil::instant_named(value) is Some
    ||| crate::civil::reading_named(value) is Some
    ||| crate::civil::date_named(value) is Some
}

/// Whether `value` parses as some date/datetime/instant or a bare epoch second — used to tell a
/// `START..END` range token apart from a path like `..\AAPL.fwob`. Timezone-free; the actual
/// conversion is deferred.
pub fn looks_like_bound(value: &str) -> (r: bool)
    ensures
        r == is_bound(value@),
{
    parse_epoch_seconds(value).is_some() || parse_instant(value).is_some() || parse_reading(
        value,
    ).is_some() || parse_date(value).is_some()
}

/// Whether two dots stand at a position.
pub open spec fn dots_at(s: Seq<char>, i: int) -> bool {
    0 <= i && i + 1 < s.len() && s[i] == '.' && s[i + 1] == '.'
}

/// Where the first two dots stand.
pub open spec fn first_dots(s: Seq<char>, from: int) -> Option<int>
    decreases s.len() - from,
{
    if from < 0 || from + 1 >= s.len() {
        None
    } else if dots_at(s, from) {
        Some(from)
    } else {
        first_dots(s, from + 1)
    }
}

/// One side of a range token: `None` for an empty one.
pub open spec fn range_side(s: Seq<char>) -> Option<Seq<char>> {
    if s.len() == 0 {
        None
    } else {
        Some(s)
    }
}

/// The sides of a range token: two dots, at least one side, and each side a bound.
pub open spec fn range_named(token: Seq<char>) -> Option<(Option<Seq<char>>, Option<Seq<char>>)> {
    match first_dots(token, 0) {
        None => None,
        Some(at) => {
            let lhs = token.take(at);
            let rhs = token.skip(at + 2);
            if lhs.len() == 0 && rhs.len() == 0 {
                None
            } else if lhs.len() > 0 && !is_bound(lhs) {
                None
            } else if rhs.len() > 0 && !is_bound(rhs) {
                None
            } else {
                Some((range_side(lhs), range_side(rhs)))
            }
        },
    }
}

pub open spec fn side_text(side: Option<String>) -> Option<Seq<char>> {
    match side {
        Some(s) => Some(s@),
        None => None,
    }
}

proof fn lemma_first_dots(s: Seq<char>, from: int, at: int)
    requires
        0 <= from <= at,
        dots_at(s, at),
        forall|i: int| from <= i < at ==> !#[trigger] dots_at(s, i),
    ensures
        first_dots(s, from) == Some(at),
    decreases at - from,
{
    if from < at {
        assert(!dots_at(s, from));
        lemma_first_dots(s, from + 1, at);
    }
}

proof fn lemma_no_dots(s: Seq<char>, from: int)
    requires
        0 <= from,
        forall|i: int| from <= i ==> !#[trigger] dots_at(s, i),
    ensures
        first_dots(s, from) is None,
    decreases s.len() - from,
{
    if from + 1 < s.len() {
        assert(!dots_at(s, from));
        lemma_no_dots(s, from + 1);
    }
}

fn find_dots(s: &Vec<char>) -> (r: Option<usize>)
    ensures
        match first_dots(s@, 0) {
            Some(at) => r matches Some(i) && i == at,
            None => r is None,
        },
        r matches Some(i) ==> i + 2 <= s@.len(),
{
    let mut i: usize = 0;
    while i < s.len()
        invariant
            i <= s.len(),
            forall|j: int| 0 <= j < i ==> !#[trigger] dots_at(s@, j),
        decreases s.len() - i,
    {
        if s.len() - i > 1 && s[i] == '.' && s[i + 1] == '.' {
            proof {
                lemma_first_dots(s@, 0, i as int);
            }
            return Some(i);
        }
        i += 1;
    }
    proof {
        lemma_no_dots(s@, 0);
    }
    None
}

/// Parses a `START..END` range token (either side optional, e.g. `2024-01-01T12:00:00Z..2026-01-01`
/// or `..2026-01-01`) into raw bound strings. Returns `None` when the token is not range-shaped, so
/// it falls through to path/symbol handling (e.g. a relative path `..\AAPL.fwob`). Each present
/// side must look like a date/time; conversion to epochs happens later in [`parse_bounds`].
pub fn parse_range_token(token: &str) -> (r: Option<(Option<String>, Option<String>)>)
    ensures
        match range_named(token@) {
            None => r is None,
            Some((start, end)) => r matches Some(sides) && side_text(sides.0) == start && side_text(
                sides.1,
            ) == end,
        },
{
    let chars = chars_of(token);
    let at: usize = match find_dots(&chars) {
        Some(at) => at,
        None => return None,
    };
    let lhs = text_of(vstd::slice::slice_subrange(chars.as_slice(), 0, at));
    let rhs = text_of(vstd::slice::slice_subrange(chars.as_slice(), at + 2, chars.len()));
    let has_lhs = at > 0;
    let has_rhs = at + 2 < chars.len();
    assert(lhs@ =~= token@.take(at as int));
    assert(rhs@ =~= token@.skip(at + 2));
    if !has_lhs && !has_rhs {
        return None;
    }
    if has_lhs && !looks_like_bound(lhs.as_str()) {
        return None;
    }
    if has_rhs && !looks_like_bound(rhs.as_str()) {
        return None;
    }
    let start = if has_lhs {
        Some(lhs)
    } else {
        None
    };
    let end = if has_rhs {
        Some(rhs)
    } else {
        None
    };
    Some((start, end))
}

/// Two sides joined by two dots.
pub open spec fn range_text(start: Seq<char>, end: Seq<char>) -> Seq<char> {
    start + seq!['.', '.'] + end
}

/// Two bounds joined by two dots are a range token with those sides, unless the first one has the
/// dots in it already.
pub proof fn ranges_split_back(start: Seq<char>, end: Seq<char>)
    requires
        is_bound(start) || start.len() == 0,
        is_bound(end) || end.len() == 0,
        start.len() + end.len() > 0,
        forall|i: int|
            0 <= i < start.len() ==> !#[trigger] dots_at(range_text(start, end), i),
    ensures
        range_named(range_text(start, end)) == Some((range_side(start), range_side(end))),
{
    let token = range_text(start, end);
    assert(dots_at(token, start.len() as int));
    lemma_first_dots(token, 0, start.len() as int);
    assert(token.take(start.len() as int) =~= start);
    assert(token.skip(start.len() as int + 2) =~= end);
}

/// A token whose sides are not all bounds, such as a relative path, is no range.
pub proof fn paths_are_no_ranges(token: Seq<char>)
    requires
        forall|i: int|
            #[trigger] dots_at(token, i) ==> (i > 0 && !is_bound(token.take(i))) || (i + 2
                < token.len() && !is_bound(token.skip(i + 2))),
    ensures
        range_named(token) is None,
{
    lemma_found_dots(token, 0);
}

proof fn lemma_found_dots(s: Seq<char>, from: int)
    ensures
        first_dots(s, from) matches Some(at) ==> dots_at(s, at),
    decreases s.len() - from,
{
    if from >= 0 && from + 1 < s.len() && !dots_at(s, from) {
        lemma_found_dots(s, from + 1);
    }
}

} // verus!
