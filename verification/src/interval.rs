//! Bar interval token parsing.
//!
//! Supported units: `s` seconds, `m` minutes, `h` hours, `d` days, `w` weeks, `mo` months, `y`
//! years. Sub-day units (`s`/`m`/`h`) are bucketed by a fixed number of seconds; day-and-larger
//! units are bucketed by **calendar** date in the exchange timezone (see
//! [`crate::resample::BarClock`]).
use vstd::prelude::*;

use crate::text::{chars_of, from_decimal, only_digits, to_decimal};

verus! {

/// Upper bound on the unit count, to keep calendar arithmetic well within range.
pub const MAX_COUNT: u32 = 100_000;

#[derive(Debug, Clone, Copy, PartialEq, Eq, Structural)]
pub enum IntervalUnit {
    Second,
    Minute,
    Hour,
    Day,
    Week,
    Month,
    Year,
}

/// How an interval's buckets are anchored.
#[derive(Debug, Clone, Copy, PartialEq, Eq, Structural)]
pub enum Granularity {
    /// A fixed number of seconds, UTC-epoch aligned.
    SubDay(u32),
    /// `n` calendar days, aligned to the local date.
    Day(u32),
    /// `n` calendar weeks, aligned to the local Monday.
    Week(u32),
    /// `n` calendar months, aligned to the first of the local month.
    Month(u32),
    /// `n` calendar years, aligned to local January 1.
    Year(u32),
}

/// Why an interval-shaped token is not a usable interval.
#[derive(Debug, Clone, Copy, PartialEq, Eq, Structural)]
pub enum IntervalError {
    /// The count does not fit in 32 bits.
    TooLarge,
    /// The count is zero.
    Zero,
    /// The count exceeds [`MAX_COUNT`].
    AboveMaximum,
}

impl IntervalError {
    /// What is wrong with the token, in words.
    pub open spec fn message_text(self) -> Seq<char> {
        match self {
            IntervalError::TooLarge => "interval count is too large"@,
            IntervalError::Zero => "interval must be at least 1"@,
            IntervalError::AboveMaximum => "interval count must not exceed 100000"@,
        }
    }

    /// What is wrong with the token, in words.
    pub fn message(self) -> (r: String)
        ensures
            r@ == self.message_text(),
    {
        match self {
            IntervalError::TooLarge => "interval count is too large".to_owned(),
            IntervalError::Zero => "interval must be at least 1".to_owned(),
            IntervalError::AboveMaximum => "interval count must not exceed 100000".to_owned(),
        }
    }
}

/// A resampling interval: a count and a unit.
#[derive(Debug, Clone, Copy, PartialEq, Eq, Structural)]
pub struct Interval {
    count: u32,
    unit: IntervalUnit,
}

/// The unit that a one-letter suffix names.
pub open spec fn letter_unit(c: char) -> Option<IntervalUnit> {
    if c == 's' {
        Some(IntervalUnit::Second)
    } else if c == 'm' {
        Some(IntervalUnit::Minute)
    } else if c == 'h' {
        Some(IntervalUnit::Hour)
    } else if c == 'd' {
        Some(IntervalUnit::Day)
    } else if c == 'w' {
        Some(IntervalUnit::Week)
    } else if c == 'y' {
        Some(IntervalUnit::Year)
    } else {
        None
    }
}

/// The suffix of a unit in a token.
pub open spec fn unit_suffix(unit: IntervalUnit) -> Seq<char> {
    match unit {
        IntervalUnit::Second => seq!['s'],
        IntervalUnit::Minute => seq!['m'],
        IntervalUnit::Hour => seq!['h'],
        IntervalUnit::Day => seq!['d'],
        IntervalUnit::Week => seq!['w'],
        IntervalUnit::Month => seq!['m', 'o'],
        IntervalUnit::Year => seq!['y'],
    }
}

pub open spec fn ends_in_mo(value: Seq<char>) -> bool {
    value.len() >= 2 && value[value.len() - 2] == 'm' && value.last() == 'o'
}

/// A token split into what stands before its unit, and the unit. `mo` is the only two-letter unit,
/// so it goes before the single letters and is not mistaken for minutes.
pub open spec fn unit_split(value: Seq<char>) -> Option<(Seq<char>, IntervalUnit)> {
    if ends_in_mo(value) {
        Some((value.take(value.len() - 2), IntervalUnit::Month))
    } else if value.len() == 0 {
        None
    } else {
        match letter_unit(value.last()) {
            Some(unit) => Some((value.drop_last(), unit)),
            None => None,
        }
    }
}

/// What a token means: `None` when it is not interval-shaped, else its count and unit, or why the
/// count is out of range.
pub open spec fn token_meaning(value: Seq<char>) -> Option<Result<(nat, IntervalUnit), IntervalError>> {
    match unit_split(value) {
        None => None,
        Some((digits, unit)) => if digits.len() == 0 || !crate::text::all_digits(digits) {
            None
        } else {
            let count = crate::text::decimal_value(digits);
            if count > u32::MAX {
                Some(Err(IntervalError::TooLarge))
            } else if count == 0 {
                Some(Err(IntervalError::Zero))
            } else if count > MAX_COUNT {
                Some(Err(IntervalError::AboveMaximum))
            } else {
                Some(Ok((count, unit)))
            }
        },
    }
}

/// Splits a token into its count part, as a length, and its unit.
fn split_unit(value: &Vec<char>) -> (r: Option<(usize, IntervalUnit)>)
    ensures
        r is Some <==> unit_split(value@) is Some,
        r matches Some((n, unit)) ==> n <= value@.len() && unit_split(value@) == Some(
            (value@.take(n as int), unit),
        ),
{
    let n: usize = value.len();
    if n >= 2 && value[n - 2] == 'm' && value[n - 1] == 'o' {
        return Some((n - 2, IntervalUnit::Month));
    }
    if n == 0 {
        return None;
    }
    let unit = match value[n - 1] {
        's' => IntervalUnit::Second,
        'm' => IntervalUnit::Minute,
        'h' => IntervalUnit::Hour,
        'd' => IntervalUnit::Day,
        'w' => IntervalUnit::Week,
        'y' => IntervalUnit::Year,
        _ => return None,
    };
    assert(value@.drop_last() =~= value@.take(n - 1));
    Some((n - 1, unit))
}

impl Interval {
    /// The number of units.
    pub closed spec fn units(self) -> nat {
        self.count as nat
    }

    /// The unit counted in.
    pub closed spec fn kind(self) -> IntervalUnit {
        self.unit
    }

    /// An interval counts at least one unit and at most [`MAX_COUNT`].
    #[verifier::type_invariant]
    pub open spec fn valid(self) -> bool {
        1 <= self.units() <= MAX_COUNT
    }

    /// How buckets are anchored: seconds for the sub-day units, calendar units otherwise.
    pub open spec fn anchoring(self) -> Granularity {
        match self.kind() {
            IntervalUnit::Second => Granularity::SubDay(self.units() as u32),
            IntervalUnit::Minute => Granularity::SubDay((self.units() * 60) as u32),
            IntervalUnit::Hour => Granularity::SubDay((self.units() * 3_600) as u32),
            IntervalUnit::Day => Granularity::Day(self.units() as u32),
            IntervalUnit::Week => Granularity::Week(self.units() as u32),
            IntervalUnit::Month => Granularity::Month(self.units() as u32),
            IntervalUnit::Year => Granularity::Year(self.units() as u32),
        }
    }

    /// The canonical token: the count in decimal, then the unit's suffix.
    pub open spec fn token(self) -> Seq<char> {
        crate::text::decimal(self.units()) + unit_suffix(self.kind())
    }

    /// Parses an interval token like `5m`, `1h`, `1d`, `2w`, `3mo`, `1y`.
    ///
    /// Returns `None` when `value` is not interval-shaped (so a token classifier can fall through
    /// to treating it as a path/symbol). Returns `Some(Err(..))` when it *looks* like an interval
    /// but is out of range.
    pub fn parse(value: &str) -> (r: Option<Result<Self, IntervalError>>)
        ensures
            match token_meaning(value@) {
                None => r is None,
                Some(Err(e)) => r == Some(Err::<Interval, IntervalError>(e)),
                Some(Ok((count, unit))) => r matches Some(Ok(i)) && i.valid() && i.units() == count
                    && i.kind() == unit,
            },
    {
        let chars = chars_of(value);
        let (n, unit) = match split_unit(&chars) {
            Some(split) => split,
            None => return None,
        };
        let digits = vstd::slice::slice_subrange(chars.as_slice(), 0, n);
        assert(digits@ =~= value@.take(n as int));
        if n == 0 || !only_digits(digits) {
            return None;
        }
        match from_decimal(digits) {
            None => Some(Err(IntervalError::TooLarge)),
            Some(count) => {
                if count > u32::MAX as u64 {
                    Some(Err(IntervalError::TooLarge))
                } else if count == 0 {
                    Some(Err(IntervalError::Zero))
                } else if count > MAX_COUNT as u64 {
                    Some(Err(IntervalError::AboveMaximum))
                } else {
                    Some(Ok(Interval { count: count as u32, unit }))
                }
            },
        }
    }

    /// The interval of one day, `1d`.
    pub fn daily() -> (r: Interval)
        ensures
            r.valid(),
            r.units() == 1,
            r.kind() == IntervalUnit::Day,
            r.token() == "1d"@,
    {
        proof {
            reveal_strlit("1d");
            reveal_with_fuel(crate::text::decimal, 2);
        }
        let r = Interval { count: 1, unit: IntervalUnit::Day };
        assert(r.token() =~= "1d"@);
        r
    }

    pub fn count(self) -> (r: u32)
        ensures
            r == self.units(),
    {
        self.count
    }

    pub fn unit(self) -> (r: IntervalUnit)
        ensures
            r == self.kind(),
    {
        self.unit
    }

    /// How buckets for this interval are anchored.
    pub fn granularity(self) -> (r: Granularity)
        ensures
            self.valid(),
            r == self.anchoring(),
    {
        proof {
            use_type_invariant(self);
        }
        match self.unit {
            IntervalUnit::Second => Granularity::SubDay(self.count),
            IntervalUnit::Minute => Granularity::SubDay(self.count * 60),
            IntervalUnit::Hour => Granularity::SubDay(self.count * 3_600),
            IntervalUnit::Day => Granularity::Day(self.count),
            IntervalUnit::Week => Granularity::Week(self.count),
            IntervalUnit::Month => Granularity::Month(self.count),
            IntervalUnit::Year => Granularity::Year(self.count),
        }
    }

    /// The canonical token label, e.g. `5m` or `3mo`.
    pub fn label(self) -> (r: String)
        ensures
            r@ == self.token(),
    {
        let mut out = to_decimal(self.count as u128);
        match self.unit {
            IntervalUnit::Second => out.push('s'),
            IntervalUnit::Minute => out.push('m'),
            IntervalUnit::Hour => out.push('h'),
            IntervalUnit::Day => out.push('d'),
            IntervalUnit::Week => out.push('w'),
            IntervalUnit::Month => {
                out.push('m');
                out.push('o');
            },
            IntervalUnit::Year => out.push('y'),
        }
        assert(out@ =~= self.token());
        out
    }
}

/// A label reads back as the interval it was written from.
pub proof fn label_parses_back(interval: Interval)
    requires
        interval.valid(),
    ensures
        token_meaning(interval.token()) == Some(
            Ok::<(nat, IntervalUnit), IntervalError>((interval.units(), interval.kind())),
        ),
{
    let digits = crate::text::decimal(interval.units());
    let token = interval.token();
    crate::text::lemma_decimal_digits(interval.units());
    crate::text::decimal_round_trip(interval.units());
    if interval.kind() == IntervalUnit::Month {
        assert(token.take(token.len() - 2) =~= digits);
    } else {
        assert(token.drop_last() =~= digits);
    }
}

} // verus!
