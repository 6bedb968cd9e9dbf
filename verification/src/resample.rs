//! Tick → OHLCV bar resampling.
use vstd::prelude::*;

use crate::aggregate::Accumulator;
use crate::civil::{add_days, add_months, days_since, new_date, CivilDate, Zone};
use crate::interval::{Granularity, Interval};
use crate::model::{Bar, Tick, Vwap};
use crate::session::Session;

verus! {

/// Controls how bar buckets are anchored.
///
/// For all variants, **day-granular and larger** intervals are aligned to the local civil date in
/// the exchange timezone, so a trading day's extended-hours ticks that cross UTC midnight (e.g. US
/// after-hours, which in winter ends at 20:00 ET = 01:00 UTC the next day) stay in the correct
/// day's bar instead of bleeding into the next. **Sub-day** intervals are UTC-epoch aligned for
/// [`BarClock::Utc`]/[`BarClock::Zoned`], but anchored to the trading-session open for
/// [`BarClock::Session`], so intraday bars start at 09:30/04:00 and tile the session.
#[derive(Debug)]
pub enum BarClock {
    Utc,
    Zoned(Zone),
    /// Sub-day buckets anchored to the session **open** (e.g. 09:30) in the session timezone;
    /// day-and-larger buckets anchored to exchange-local midnight.
    Session(Session),
}

/// The time-zone database has no zone of that name.
#[derive(Debug, Clone, Copy, PartialEq, Eq, Structural)]
pub struct UnknownZone;

/// What a clock is.
pub enum ClockModel {
    Utc,
    Zoned(Seq<char>),
    Session(crate::session::SessionModel),
}

/// The start of the fixed-length bucket that holds `time`, counted from the epoch.
pub open spec fn epoch_floor(time: int, secs: int) -> int {
    if secs == 0 {
        time
    } else {
        time - time % secs
    }
}

/// The start of the fixed-length bucket that holds `time`, counted from the session's open.
pub open spec fn open_floor(session: crate::session::SessionModel, secs: int, time: int) -> Option<
    int,
> {
    if secs == 0 {
        Some(time)
    } else {
        match session.open_at(time) {
            None => None,
            Some(open) => {
                let start = open + ((time - open) / secs) * secs;
                if 0 <= start <= u32::MAX {
                    Some(start)
                } else {
                    None
                }
            },
        }
    }
}

/// The date with a day number, where there is one.
pub open spec fn numbered(number: int) -> Option<CivilDate> {
    if crate::civil::min_number() <= number <= crate::civil::max_number() {
        Some(crate::civil::date_of(number))
    } else {
        None
    }
}

pub open spec fn first_of(year: int, month: int) -> Option<CivilDate> {
    if crate::civil::is_date(year, month, 1) {
        Some(CivilDate { year: year as i16, month: month as i8, day: 1 })
    } else {
        None
    }
}

/// The first date of the calendar bucket that holds a date. Days are counted from 1970-01-01,
/// weeks from Monday 1970-01-05, months and years from the year 0.
pub open spec fn floor_date(date: CivilDate, granularity: Granularity) -> Option<CivilDate> {
    match granularity {
        Granularity::SubDay(_) => None,
        Granularity::Day(n) => numbered((date.number() / n as int) * n),
        Granularity::Week(n) => numbered(4 + ((date.number() - 4) / 7 / n as int) * n * 7),
        Granularity::Month(n) => {
            let bucket = (date.month_number() / n as int) * n;
            first_of(bucket / 12, bucket % 12 + 1)
        },
        Granularity::Year(n) => first_of((date.year as int / n as int) * n, 1),
    }
}

/// The same day some months later, or the last day of that month when it is shorter.
pub open spec fn months_later(date: CivilDate, months: int) -> Option<CivilDate> {
    let at = date.month_number() + months;
    let year = at / 12;
    let month = at % 12 + 1;
    if crate::civil::MIN_YEAR <= year <= crate::civil::MAX_YEAR {
        let length = crate::civil::month_length(year, month);
        Some(
            CivilDate {
                year: year as i16,
                month: month as i8,
                day: if date.day <= length {
                    date.day
                } else {
                    length as i8
                },
            },
        )
    } else {
        None
    }
}

/// The date one calendar bucket later.
pub open spec fn next_date(date: CivilDate, granularity: Granularity) -> Option<CivilDate> {
    match granularity {
        Granularity::SubDay(_) => None,
        Granularity::Day(n) => numbered(date.number() + n),
        Granularity::Week(n) => numbered(date.number() + n * 7),
        Granularity::Month(n) => months_later(date, n as int),
        Granularity::Year(n) => months_later(date, n * 12),
    }
}

/// Local midnight of a date, where there is one and it is a time that a file can hold.
pub open spec fn midnight(zone: Seq<char>, date: Option<CivilDate>) -> Option<int> {
    match date {
        None => None,
        Some(date) => match crate::civil::zone_instant(zone, date, 0) {
            Some(time) => Some(time as int),
            None => None,
        },
    }
}

pub open spec fn or_else(value: Option<int>, fallback: int) -> int {
    match value {
        Some(value) => value,
        None => fallback,
    }
}

/// The sum, or the largest time there is when it is larger.
pub open spec fn later(time: int, secs: int) -> int {
    if time + secs > u32::MAX {
        u32::MAX as int
    } else {
        time + secs
    }
}

impl ClockModel {
    pub open spec fn zone(self) -> Seq<char> {
        match self {
            ClockModel::Utc => "UTC"@,
            ClockModel::Zoned(zone) => zone,
            ClockModel::Session(session) => session.zone,
        }
    }

    /// The start of the bucket that holds an instant.
    pub open spec fn bucket(self, granularity: Granularity, time: int) -> int {
        match granularity {
            Granularity::SubDay(secs) => match self {
                ClockModel::Session(session) => or_else(
                    open_floor(session, secs as int, time),
                    epoch_floor(time, secs as int),
                ),
                _ => epoch_floor(time, secs as int),
            },
            _ => or_else(
                midnight(
                    self.zone(),
                    floor_date(crate::civil::zone_date(self.zone(), time), granularity),
                ),
                epoch_floor(time, 86_400),
            ),
        }
    }

    /// The start of the bucket after the one that starts at an instant.
    pub open spec fn next(self, granularity: Granularity, start: int) -> int {
        match granularity {
            Granularity::SubDay(secs) => later(start, secs as int),
            _ => or_else(
                midnight(
                    self.zone(),
                    next_date(crate::civil::zone_date(self.zone(), start), granularity),
                ),
                later(start, 86_400),
            ),
        }
    }

    /// The exclusive end of the bucket that starts at an instant: the next start, at least one
    /// second on.
    pub open spec fn bucket_end(self, granularity: Granularity, start: int) -> int {
        if self.next(granularity, start) > later(start, 1) {
            self.next(granularity, start)
        } else {
            later(start, 1)
        }
    }

    /// Where filling after a bar stops: the session's close on the bar's day, for a sub-day
    /// interval on a session clock.
    pub open spec fn fill_end(self, granularity: Granularity, start: int) -> Option<int> {
        match (self, granularity) {
            (ClockModel::Session(session), Granularity::SubDay(_)) => match session.open_at(start) {
                Some(open) => Some(later(open as int, (session.close - session.open) * 60)),
                None => None,
            },
            _ => None,
        }
    }
}

/// Intervals that a calendar can step by: a span holds at most 19,998 years.
pub open spec fn steppable(interval: Interval) -> bool {
    interval.kind() is Year ==> interval.units() <= 19_998
}

/// Whether a calendar can step by an interval.
pub fn can_step(interval: Interval) -> (r: bool)
    ensures
        r == steppable(interval),
{
    match interval.unit() {
        crate::interval::IntervalUnit::Year => interval.count() <= 19_998,
        _ => true,
    }
}

/// The largest multiple of `step` that is not above `value`.
fn floor_to(value: i64, step: i64) -> (r: i64)
    requires
        step > 0,
        i64::MIN + step <= value,
    ensures
        r == (value as int / step as int) * step,
        value - step < r <= value,
{
    proof {
        let q = value as int / step as int;
        let m = value as int % step as int;
        assert(value == step * q + m && 0 <= m < step) by (nonlinear_arith)
            requires
                step > 0,
                q == value as int / step as int,
                m == value as int % step as int,
        ;
        assert(q * step == step * q) by (nonlinear_arith);
    }
    if value >= 0 {
        value - value % step
    } else {
        let back: i64 = (-value) % step;
        proof {
            let q = (-value) as int / step as int;
            assert(-value == step * q + back) by (nonlinear_arith)
                requires
                    step > 0,
                    q == (-value) as int / step as int,
                    back == (-value) as int % step as int,
            ;
            let r: int = if back == 0 {
                value as int
            } else {
                value - (step - back)
            };
            let k: int = if back == 0 {
                -q
            } else {
                -q - 1
            };
            assert(r == step * k) by (nonlinear_arith)
                requires
                    -value == step * q + back,
                    r == (if back == 0 {
                        value as int
                    } else {
                        value - (step - back)
                    }),
                    k == (if back == 0 {
                        -q
                    } else {
                        -q - 1
                    }),
            ;
            assert(k == value as int / step as int) by (nonlinear_arith)
                requires
                    step > 0,
                    r == step * k,
                    value - step < r <= value,
            ;
        }
        if back == 0 {
            value
        } else {
            value - (step - back)
        }
    }
}

fn sub_day_floor(time: u32, secs: u32) -> (r: u32)
    ensures
        r == epoch_floor(time as int, secs as int),
{
    if secs == 0 {
        time
    } else {
        proof {
            vstd::arithmetic::div_mod::lemma_mod_decreases(time as nat, secs as nat);
        }
        time - time % secs
    }
}

/// Floors `time` to the sub-day bucket anchored at the session open of `time`'s local day.
fn session_floor(session: &Session, secs: u32, time: u32) -> (r: Option<u32>)
    ensures
        r is Some <==> open_floor(session@, secs as int, time as int) is Some,
        r matches Some(start) ==> open_floor(session@, secs as int, time as int) == Some(
            start as int,
        ),
{
    if secs == 0 {
        return Some(time);
    }
    let open: u32 = match session.open_epoch(time) {
        Some(open) => open,
        None => return None,
    };
    let start: i64 = open as i64 + floor_to(time as i64 - open as i64, secs as i64);
    if 0 <= start && start <= u32::MAX as i64 {
        Some(start as u32)
    } else {
        None
    }
}


proof fn lemma_utc_days(time: int, n: int)
    requires
        0 <= time <= u32::MAX,
        n > 0,
    ensures
        ((time / 86_400) / n) * n * 86_400 == epoch_floor(time, n * 86_400),
        0 <= ((time / 86_400) / n) * n <= time / 86_400,
{
    let k = n * 86_400;
    vstd::arithmetic::div_mod::lemma_div_denominator(time, 86_400, n);
    assert(86_400 * n == k);
    vstd::arithmetic::div_mod::lemma_fundamental_div_mod(time, k);
    let q = time / k;
    assert(q * n * 86_400 == k * q) by (nonlinear_arith)
        requires
            k == n * 86_400,
    ;
    let d = time / 86_400;
    assert(0 <= (d / n) * n <= d) by (nonlinear_arith)
        requires
            d >= 0,
            n > 0,
    ;
}

fn floor_days(date: CivilDate, n: u32) -> (r: Option<CivilDate>)
    requires
        date.valid(),
        1 <= n <= crate::interval::MAX_COUNT,
    ensures
        r == floor_date(date, Granularity::Day(n)),
        r matches Some(d) ==> d.valid(),
{
    let reference = CivilDate { year: 1970, month: 1, day: 1 };
    proof {
        crate::civil::lemma_number_in_year(date);
        crate::civil::lemma_number_bounds();
    }
    let offset: i64 = floor_to(days_since(date, reference) as i64, n as i64);
    let found = add_days(reference, offset as i32);
    proof {
        if found is Some {
            crate::civil::lemma_date_of(found->0);
        }
    }
    found
}

fn floor_weeks(date: CivilDate, n: u32) -> (r: Option<CivilDate>)
    requires
        date.valid(),
        1 <= n <= crate::interval::MAX_COUNT,
    ensures
        r == floor_date(date, Granularity::Week(n)),
        r matches Some(d) ==> d.valid(),
{
    // 1970-01-05 is a Monday; week buckets are aligned to it.
    let reference = CivilDate { year: 1970, month: 1, day: 5 };
    proof {
        crate::civil::lemma_number_in_year(date);
        crate::civil::lemma_number_bounds();
    }
    let days: i64 = days_since(date, reference) as i64;
    let week: i64 = floor_to(days, 7) / 7;
    let offset: i64 = floor_to(week, n as i64) * 7;
    let found = add_days(reference, offset as i32);
    proof {
        if found is Some {
            crate::civil::lemma_date_of(found->0);
        }
    }
    found
}

fn floor_months(date: CivilDate, n: u32) -> (r: Option<CivilDate>)
    requires
        date.valid(),
        1 <= n <= crate::interval::MAX_COUNT,
    ensures
        r == floor_date(date, Granularity::Month(n)),
        r matches Some(d) ==> d.valid(),
{
    let month: i64 = date.year as i64 * 12 + (date.month as i64 - 1);
    let bucket: i64 = floor_to(month, n as i64);
    let start: i64 = floor_to(bucket, 12);
    assert(start == (bucket as int / 12) * 12);
    let year: i64 = if start >= 0 {
        start / 12
    } else {
        -((-start) / 12)
    };
    assert(year == bucket as int / 12);
    if year < crate::civil::MIN_YEAR as i64 || year > crate::civil::MAX_YEAR as i64 {
        return None;
    }
    new_date(year as i16, (bucket - start + 1) as i8, 1)
}

fn floor_years(date: CivilDate, n: u32) -> (r: Option<CivilDate>)
    requires
        date.valid(),
        1 <= n <= crate::interval::MAX_COUNT,
    ensures
        r == floor_date(date, Granularity::Year(n)),
        r matches Some(d) ==> d.valid(),
{
    let year: i64 = floor_to(date.year as i64, n as i64);
    if year < crate::civil::MIN_YEAR as i64 || year > crate::civil::MAX_YEAR as i64 {
        return None;
    }
    new_date(year as i16, 1, 1)
}

/// The first date of the calendar bucket that holds `date`.
fn calendar_floor(date: CivilDate, granularity: Granularity) -> (r: Option<CivilDate>)
    requires
        date.valid(),
        counts(granularity),
    ensures
        r == floor_date(date, granularity),
        r matches Some(d) ==> d.valid(),
{
    match granularity {
        Granularity::Day(n) => floor_days(date, n),
        Granularity::Week(n) => floor_weeks(date, n),
        Granularity::Month(n) => floor_months(date, n),
        Granularity::Year(n) => floor_years(date, n),
        Granularity::SubDay(_) => None,
    }
}

/// The date one calendar bucket after `date`.
fn calendar_next(date: CivilDate, granularity: Granularity) -> (r: Option<CivilDate>)
    requires
        date.valid(),
        counts(granularity),
        granularity matches Granularity::Year(n) ==> n <= 19_998,
    ensures
        r == next_date(date, granularity),
        r matches Some(d) ==> d.valid(),
{
    let found = match granularity {
        Granularity::Day(n) => add_days(date, n as i32),
        Granularity::Week(n) => add_days(date, n as i32 * 7),
        Granularity::Month(n) => add_months(date, n as i32),
        Granularity::Year(n) => add_months(date, n as i32 * 12),
        Granularity::SubDay(_) => None,
    };
    proof {
        if found is Some && (granularity is Day || granularity is Week) {
            crate::civil::lemma_date_of(found->0);
        }
    }
    found
}

/// The unit counts that an interval can have.
pub open spec fn counts(granularity: Granularity) -> bool {
    match granularity {
        Granularity::SubDay(secs) => secs > 0,
        Granularity::Day(n) => 1 <= n <= crate::interval::MAX_COUNT,
        Granularity::Week(n) => 1 <= n <= crate::interval::MAX_COUNT,
        Granularity::Month(n) => 1 <= n <= crate::interval::MAX_COUNT,
        Granularity::Year(n) => 1 <= n <= crate::interval::MAX_COUNT,
    }
}

impl View for BarClock {
    type V = ClockModel;

    open spec fn view(&self) -> ClockModel {
        match self {
            BarClock::Utc => ClockModel::Utc,
            BarClock::Zoned(zone) => ClockModel::Zoned(zone@),
            BarClock::Session(session) => ClockModel::Session(session@),
        }
    }
}

impl BarClock {
    /// Builds a zoned clock from an IANA timezone name.
    pub fn for_timezone(name: &str) -> (r: Result<Self, UnknownZone>)
        ensures
            r is Ok <==> crate::civil::zone_known(name@),
            r matches Ok(clock) ==> clock@ == ClockModel::Zoned(name@),
    {
        match Zone::get(name) {
            Some(zone) => Ok(BarClock::Zoned(zone)),
            None => Err(UnknownZone),
        }
    }

    pub fn copy(&self) -> (r: BarClock)
        ensures
            r@ == self@,
    {
        match self {
            BarClock::Utc => BarClock::Utc,
            BarClock::Zoned(zone) => BarClock::Zoned(zone.copy()),
            BarClock::Session(session) => BarClock::Session(session.copy()),
        }
    }

    fn time_zone(&self) -> (r: Zone)
        ensures
            r@ == self@.zone(),
    {
        match self {
            BarClock::Utc => Zone::utc(),
            BarClock::Zoned(zone) => zone.copy(),
            BarClock::Session(session) => session.time_zone(),
        }
    }

    /// The start of the bucket that holds `time`.
    pub fn bucket_start(&self, interval: Interval, time: u32) -> (r: u32)
        ensures
            r == self@.bucket(interval.anchoring(), time as int),
            self is Utc ==> (interval.anchoring() matches Granularity::Day(n) ==> r == epoch_floor(
                time as int,
                n * 86_400,
            )),
    {
        proof {
            if let Granularity::Day(n) = interval.anchoring() {
                if n > 0 {
                    lemma_utc_days(time as int, n as int);
                    crate::civil::lemma_number_bounds();
                    crate::civil::lemma_date_exists(((time as int / 86_400) / n as int) * n);
                }
            }
        }
        match interval.granularity() {
            Granularity::SubDay(secs) => match self {
                BarClock::Session(session) => match session_floor(session, secs, time) {
                    Some(start) => start,
                    None => sub_day_floor(time, secs),
                },
                _ => sub_day_floor(time, secs),
            },
            calendar => {
                let zone = self.time_zone();
                match calendar_floor(zone.date_at(time), calendar) {
                    Some(date) => match zone.instant(date, 0) {
                        Some(start) => start,
                        None => sub_day_floor(time, 86_400),
                    },
                    None => sub_day_floor(time, 86_400),
                }
            },
        }
    }

    /// The start of the bucket after the one that starts at `bucket_start`.
    pub fn advance(&self, interval: Interval, bucket_start: u32) -> (r: u32)
        requires
            steppable(interval),
        ensures
            r == self@.next(interval.anchoring(), bucket_start as int),
    {
        match interval.granularity() {
            Granularity::SubDay(secs) => bucket_start.saturating_add(secs),
            calendar => {
                let zone = self.time_zone();
                match calendar_next(zone.date_at(bucket_start), calendar) {
                    Some(date) => match zone.instant(date, 0) {
                        Some(start) => start,
                        None => bucket_start.saturating_add(86_400),
                    },
                    None => bucket_start.saturating_add(86_400),
                }
            },
        }
    }

    /// Where the bucket after the one that starts at `bucket_start` starts: the exclusive end of
    /// that one.
    pub fn next_bucket_start(&self, interval: Interval, bucket_start: u32) -> (r: u32)
        requires
            steppable(interval),
        ensures
            r == self@.bucket_end(interval.anchoring(), bucket_start as int),
    {
        let next: u32 = self.advance(interval, bucket_start);
        let least: u32 = bucket_start.saturating_add(1);
        if next > least {
            next
        } else {
            least
        }
    }

    /// Exclusive upper bound for forward-fill bars: the session **close** of `prev_start`'s day,
    /// so sub-day fill never spans the overnight gap (or whole empty days). `None` for non-session
    /// clocks and calendar intervals, where fill is bounded only by the next real bar.
    pub fn fill_stop(&self, interval: Interval, prev_start: u32) -> (r: Option<u32>)
        ensures
            r is Some <==> self@.fill_end(interval.anchoring(), prev_start as int) is Some,
            r matches Some(stop) ==> self@.fill_end(interval.anchoring(), prev_start as int)
                == Some(stop as int),
    {
        match (self, interval.granularity()) {
            (BarClock::Session(session), Granularity::SubDay(_)) => match session.open_epoch(
                prev_start,
            ) {
                Some(open) => Some(open.saturating_add(session.length_seconds())),
                None => None,
            },
            _ => None,
        }
    }
}

/// A resampler between two items: the open run, timed at its bucket's start, and the exclusive end
/// of that bucket.
pub struct RunState {
    pub run: Option<crate::aggregate::Agg>,
    pub end: int,
}

/// Takes one item in: it joins the open run while it comes before the bucket's end, else it closes
/// the run and opens the bucket that holds it.
pub open spec fn step(
    clock: ClockModel,
    granularity: Granularity,
    state: RunState,
    item: crate::aggregate::Agg,
) -> (RunState, Option<Bar>) {
    let start = clock.bucket(granularity, item.time);
    let opened = RunState {
        run: Some(item.timed(start)),
        end: clock.bucket_end(granularity, start),
    };
    match state.run {
        None => (opened, None),
        Some(run) => if item.time < state.end {
            (RunState { run: Some(run.then_run(item)), end: state.end }, None)
        } else {
            (opened, Some(run.bar()))
        },
    }
}

/// Whether an item can be taken in without a total leaving the range of its field.
pub open spec fn room(state: RunState, item: crate::aggregate::Agg) -> bool {
    match state.run {
        Some(run) => item.time < state.end ==> run.then_run(item).fits(),
        None => true,
    }
}

/// The bars still to come from an open run and the items after it.
pub open spec fn bars_from(
    clock: ClockModel,
    granularity: Granularity,
    run: crate::aggregate::Agg,
    end: int,
    items: Seq<crate::aggregate::Agg>,
) -> Seq<Bar>
    decreases items.len(),
{
    if items.len() == 0 {
        seq![run.bar()]
    } else if items[0].time < end {
        bars_from(clock, granularity, run.then_run(items[0]), end, items.drop_first())
    } else {
        let start = clock.bucket(granularity, items[0].time);
        seq![run.bar()] + bars_from(
            clock,
            granularity,
            items[0].timed(start),
            clock.bucket_end(granularity, start),
            items.drop_first(),
        )
    }
}

/// The bars of a run of items: each bar gathers the items from the one that opened its bucket up to
/// the first that comes at or after the bucket's end.
pub open spec fn bars_of(
    clock: ClockModel,
    granularity: Granularity,
    items: Seq<crate::aggregate::Agg>,
) -> Seq<Bar> {
    if items.len() == 0 {
        Seq::empty()
    } else {
        let start = clock.bucket(granularity, items[0].time);
        bars_from(
            clock,
            granularity,
            items[0].timed(start),
            clock.bucket_end(granularity, start),
            items.drop_first(),
        )
    }
}

pub open spec fn tick_aggs(ticks: Seq<Tick>) -> Seq<crate::aggregate::Agg> {
    ticks.map_values(|tick: Tick| crate::aggregate::tick_agg(tick))
}

pub open spec fn bar_aggs(bars: Seq<Bar>) -> Seq<crate::aggregate::Agg> {
    bars.map_values(|bar: Bar| crate::aggregate::bar_agg(bar))
}

/// Incremental tick → bar resampler. Feed ascending ticks with [`Resampler::push`], which hands
/// back each bar **the moment its bucket closes** (so rows can stream straight to the terminal);
/// flush the final open bucket with [`Resampler::finish`]. Neither the ticks nor the resulting bars
/// are ever all held in memory at once.
pub struct Resampler {
    interval: Interval,
    clock: BarClock,
    current: Option<Accumulator>,
    /// Exclusive end of the open bucket, cached so the (potentially expensive) timezone bucket
    /// computation runs once per bucket instead of once per tick.
    bucket_end: u32,
}

impl Resampler {
    pub closed spec fn state(&self) -> RunState {
        RunState {
            run: match self.current {
                Some(acc) => Some(acc@),
                None => None,
            },
            end: self.bucket_end as int,
        }
    }

    pub closed spec fn step_by(&self) -> Interval {
        self.interval
    }

    pub closed spec fn on_clock(&self) -> ClockModel {
        self.clock@
    }

    pub fn new(interval: Interval, clock: BarClock) -> (r: Self)
        ensures
            r.step_by() == interval,
            r.on_clock() == clock@,
            r.state() == (RunState { run: None, end: 0 }),
    {
        Resampler { interval, clock, current: None, bucket_end: 0 }
    }

    /// Whether `tick` can be folded in without a total leaving the range of its field.
    pub fn accepts(&self, tick: &Tick) -> (r: bool)
        ensures
            r == room(self.state(), crate::aggregate::tick_agg(*tick)),
    {
        match &self.current {
            Some(acc) => tick.time >= self.bucket_end || acc.has_room(tick),
            None => true,
        }
    }

    /// Folds `tick` into the open bucket, handing back the just-completed bar when the tick opens a
    /// new bucket. Ticks must be ascending.
    pub fn push(&mut self, tick: &Tick) -> (r: Option<Bar>)
        requires
            steppable(old(self).step_by()),
            room(old(self).state(), crate::aggregate::tick_agg(*tick)),
        ensures
            final(self).step_by() == old(self).step_by(),
            final(self).on_clock() == old(self).on_clock(),
            (final(self).state(), r) == step(
                old(self).on_clock(),
                old(self).step_by().anchoring(),
                old(self).state(),
                crate::aggregate::tick_agg(*tick),
            ),
    {
        let mut done: Option<Bar> = None;
        if let Some(mut acc) = self.current {
            // Ticks are ascending, so a tick belongs to the open bucket while it precedes its end.
            if tick.time < self.bucket_end {
                acc.update(tick);
                self.current = Some(acc);
                return None;
            }
            done = Some(acc.finish());
        }
        let start: u32 = self.clock.bucket_start(self.interval, tick.time);
        self.bucket_end = self.clock.next_bucket_start(self.interval, start);
        self.current = Some(Accumulator::new(start, tick));
        done
    }

    /// Hands back the final open bucket (if any).
    pub fn finish(self) -> (r: Option<Bar>)
        ensures
            r == match self.state().run {
                Some(run) => Some(run.bar()),
                None => None,
            },
    {
        match self.current {
            Some(acc) => Some(acc.finish()),
            None => None,
        }
    }
}

/// Incremental bar → bar resampler: re-buckets an ascending stream of source bars into a coarser
/// (or equal) `interval`, aggregating OHLCV the same way [`Resampler`] aggregates ticks. Feeding a
/// finer interval than the source simply re-times each bar into its own bucket (no sub-division is
/// possible).
pub struct BarResampler {
    interval: Interval,
    clock: BarClock,
    current: Option<Accumulator>,
    bucket_end: u32,
}

impl BarResampler {
    pub closed spec fn state(&self) -> RunState {
        RunState {
            run: match self.current {
                Some(acc) => Some(acc@),
                None => None,
            },
            end: self.bucket_end as int,
        }
    }

    pub closed spec fn step_by(&self) -> Interval {
        self.interval
    }

    pub closed spec fn on_clock(&self) -> ClockModel {
        self.clock@
    }

    pub fn new(interval: Interval, clock: BarClock) -> (r: Self)
        ensures
            r.step_by() == interval,
            r.on_clock() == clock@,
            r.state() == (RunState { run: None, end: 0 }),
    {
        BarResampler { interval, clock, current: None, bucket_end: 0 }
    }

    /// Whether `bar` can be folded in without a total leaving the range of its field.
    pub fn accepts(&self, bar: &Bar) -> (r: bool)
        ensures
            r == room(self.state(), crate::aggregate::bar_agg(*bar)),
    {
        match &self.current {
            Some(acc) => bar.time >= self.bucket_end || acc.has_room_for_bar(bar),
            None => true,
        }
    }

    /// Folds `bar` into the open target bucket, handing back the just-completed bar when `bar`
    /// opens a new bucket. Source bars must be ascending by time.
    pub fn push(&mut self, bar: &Bar) -> (r: Option<Bar>)
        requires
            steppable(old(self).step_by()),
            room(old(self).state(), crate::aggregate::bar_agg(*bar)),
        ensures
            final(self).step_by() == old(self).step_by(),
            final(self).on_clock() == old(self).on_clock(),
            (final(self).state(), r) == step(
                old(self).on_clock(),
                old(self).step_by().anchoring(),
                old(self).state(),
                crate::aggregate::bar_agg(*bar),
            ),
    {
        let mut done: Option<Bar> = None;
        if let Some(mut acc) = self.current {
            if bar.time < self.bucket_end {
                acc.update_bar(bar);
                self.current = Some(acc);
                return None;
            }
            done = Some(acc.finish());
        }
        let start: u32 = self.clock.bucket_start(self.interval, bar.time);
        self.bucket_end = self.clock.next_bucket_start(self.interval, start);
        self.current = Some(Accumulator::from_bar(start, bar));
        done
    }

    /// Hands back the final open bucket (if any).
    pub fn finish(self) -> (r: Option<Bar>)
        ensures
            r == match self.state().run {
                Some(run) => Some(run.bar()),
                None => None,
            },
    {
        match self.current {
            Some(acc) => Some(acc.finish()),
            None => None,
        }
    }
}

/// A bar for an interval without trades: the previous close throughout, no volume.
pub open spec fn flat_bar(time: int, price: u32) -> Bar {
    Bar {
        time: time as u32,
        open: price,
        high: price,
        low: price,
        close: price,
        volume: 0,
        vwap: Vwap::Price(price),
        trades: 0,
    }
}

/// The flat bars from `at` on, one per interval, before `until` and before where filling stops.
pub open spec fn flats(
    clock: ClockModel,
    granularity: Granularity,
    price: u32,
    at: int,
    until: int,
    stop: Option<int>,
) -> Seq<Bar>
    decreases
        if at < until {
            until - at
        } else {
            0
        },
{
    if at < until && (stop is Some ==> at < stop->0) {
        let next = clock.next(granularity, at);
        seq![flat_bar(at, price)] + if next > at {
            flats(clock, granularity, price, next, until, stop)
        } else {
            Seq::empty()
        }
    } else {
        Seq::empty()
    }
}

/// The flat bars between two real ones.
pub open spec fn gap(clock: ClockModel, granularity: Granularity, prev: Bar, bar: Bar) -> Seq<Bar> {
    flats(
        clock,
        granularity,
        prev.close,
        clock.next(granularity, prev.time as int),
        bar.time as int,
        clock.fill_end(granularity, prev.time as int),
    )
}

/// Real bars with the gaps between them filled.
pub open spec fn with_gaps(clock: ClockModel, granularity: Granularity, bars: Seq<Bar>) -> Seq<Bar>
    decreases bars.len(),
{
    if bars.len() <= 1 {
        bars
    } else {
        with_gaps(clock, granularity, bars.drop_last()) + gap(
            clock,
            granularity,
            bars[bars.len() - 2],
            bars.last(),
        ) + seq![bars.last()]
    }
}

/// Whether a flat bar goes at an instant: before the next real bar and before where filling stops.
fn fills_at(at: u32, until: u32, stop: Option<u32>) -> (r: bool)
    ensures
        r == (at < until && (stop is Some ==> at < stop->0)),
{
    at < until && match stop {
        Some(stop) => at < stop,
        None => true,
    }
}

/// Optionally forward-fills empty intervals. When `fill` is set, each real bar is preceded by flat
/// bars (previous close, zero volume) for every empty interval since the last real bar, so gaps
/// between (but not before the first or after the last) real bar are filled. It only ever holds the
/// previous real bar, never the whole series.
pub struct ForwardFiller {
    interval: Interval,
    clock: BarClock,
    fill: bool,
    prev: Option<Bar>,
}

impl ForwardFiller {
    pub closed spec fn step_by(&self) -> Interval {
        self.interval
    }

    pub closed spec fn on_clock(&self) -> ClockModel {
        self.clock@
    }

    pub closed spec fn fills(&self) -> bool {
        self.fill
    }

    /// The last real bar, kept only when filling.
    pub closed spec fn last(&self) -> Option<Bar> {
        self.prev
    }

    pub fn new(interval: Interval, clock: BarClock, fill: bool) -> (r: Self)
        ensures
            r.step_by() == interval,
            r.on_clock() == clock@,
            r.fills() == fill,
            r.last() is None,
    {
        ForwardFiller { interval, clock, fill, prev: None }
    }

    /// Hands back `bar` behind any flat fill bars that go before it. Fill never crosses a session
    /// close (see [`BarClock::fill_stop`]), so the overnight gap and empty days stay empty rather
    /// than being padded with flat bars.
    pub fn push(&mut self, bar: Bar) -> (r: Vec<Bar>)
        requires
            old(self).fills() ==> steppable(old(self).step_by()),
        ensures
            final(self).step_by() == old(self).step_by(),
            final(self).on_clock() == old(self).on_clock(),
            final(self).fills() == old(self).fills(),
            final(self).last() == if old(self).fills() {
                Some(bar)
            } else {
                old(self).last()
            },
            r@ == if old(self).fills() && old(self).last() is Some {
                gap(
                    old(self).on_clock(),
                    old(self).step_by().anchoring(),
                    old(self).last()->0,
                    bar,
                ).push(bar)
            } else {
                seq![bar]
            },
    {
        let mut out: Vec<Bar> = Vec::new();
        if self.fill {
            if let Some(prev) = self.prev {
                let stop = self.clock.fill_stop(self.interval, prev.time);
                let mut expected: u32 = self.clock.advance(self.interval, prev.time);
                let ghost g = self.interval.anchoring();
                let ghost end = self.clock@.fill_end(g, prev.time as int);
                let ghost all = gap(self.clock@, g, prev, bar);
                let mut stuck = false;
                while !stuck && fills_at(expected, bar.time, stop)
                    invariant
                        steppable(self.interval),
                        g == self.interval.anchoring(),
                        stop is Some <==> end is Some,
                        stop matches Some(s) ==> end == Some(s as int),
                        all == out@ + (if stuck {
                            Seq::empty()
                        } else {
                            flats(self.clock@, g, prev.close, expected as int, bar.time as int, end)
                        }),
                    decreases
                        if stuck || expected >= bar.time {
                            0
                        } else {
                            bar.time - expected
                        },
                {
                    let ghost before = out@;
                    out.push(
                        Bar {
                            time: expected,
                            open: prev.close,
                            high: prev.close,
                            low: prev.close,
                            close: prev.close,
                            volume: 0,
                            vwap: Vwap::Price(prev.close),
                            trades: 0,
                        },
                    );
                    let next: u32 = self.clock.advance(self.interval, expected);
                    proof {
                        let rest = if next > expected {
                            flats(self.clock@, g, prev.close, next as int, bar.time as int, end)
                        } else {
                            Seq::empty()
                        };
                        let flat = flat_bar(expected as int, prev.close);
                        assert(flats(
                            self.clock@,
                            g,
                            prev.close,
                            expected as int,
                            bar.time as int,
                            end,
                        ) == seq![flat] + rest);
                        assert(before + (seq![flat] + rest) =~= out@ + rest);
                    }
                    if next <= expected {
                        stuck = true;  // guard against a non-advancing clock
                    } else {
                        expected = next;
                    }
                }
                assert(all =~= out@);
            }
            self.prev = Some(bar);
        }
        out.push(bar);
        out
    }
}

/// The total size of a run of trades.
pub open spec fn size_sum(ticks: Seq<Tick>) -> int
    decreases ticks.len(),
{
    if ticks.len() == 0 {
        0
    } else {
        size_sum(ticks.drop_last()) + ticks.last().size
    }
}

/// Whether no run of consecutive trades has a total size that a bar's volume cannot hold.
pub open spec fn sizes_fit(ticks: Seq<Tick>) -> bool {
    forall|i: int, j: int|
        0 <= i <= j <= ticks.len() ==> i64::MIN <= #[trigger] size_sum(ticks.subrange(i, j))
            <= i64::MAX
}

/// Up to four billion trades always fit.
pub proof fn small_runs_fit(ticks: Seq<Tick>)
    requires
        ticks.len() <= 0x1_0000_0000,
    ensures
        sizes_fit(ticks),
{
    assert forall|i: int, j: int| 0 <= i <= j <= ticks.len() implies i64::MIN <= #[trigger] size_sum(
        ticks.subrange(i, j),
    ) <= i64::MAX by {
        lemma_size_sum_bound(ticks.subrange(i, j));
    }
}

proof fn lemma_size_sum_bound(ticks: Seq<Tick>)
    ensures
        -0x8000_0000 * ticks.len() <= size_sum(ticks) <= 0x7fff_ffff * ticks.len(),
    decreases ticks.len(),
{
    if ticks.len() > 0 {
        lemma_size_sum_bound(ticks.drop_last());
    }
}

proof fn lemma_size_sum_push(ticks: Seq<Tick>, i: int, j: int)
    requires
        0 <= i <= j < ticks.len(),
    ensures
        size_sum(ticks.subrange(i, j + 1)) == size_sum(ticks.subrange(i, j)) + ticks[j].size,
{
    assert(ticks.subrange(i, j + 1).drop_last() =~= ticks.subrange(i, j));
}

/// Bars as they go out: with the gaps between them filled, or as they are.
pub open spec fn delivered(
    clock: ClockModel,
    granularity: Granularity,
    fill: bool,
    bars: Seq<Bar>,
) -> Seq<Bar> {
    if fill {
        with_gaps(clock, granularity, bars)
    } else {
        bars
    }
}

/// Sends one more real bar out through the filler.
fn deliver(filler: &mut ForwardFiller, out: &mut Vec<Bar>, bar: Bar, Ghost(done): Ghost<Seq<Bar>>)
    requires
        old(filler).fills() ==> steppable(old(filler).step_by()),
        old(filler).last() == if old(filler).fills() && done.len() > 0 {
            Some(done.last())
        } else {
            None
        },
        old(out)@ == delivered(
            old(filler).on_clock(),
            old(filler).step_by().anchoring(),
            old(filler).fills(),
            done,
        ),
    ensures
        final(filler).fills() == old(filler).fills(),
        final(filler).step_by() == old(filler).step_by(),
        final(filler).on_clock() == old(filler).on_clock(),
        final(filler).last() == if old(filler).fills() {
            Some(bar)
        } else {
            None
        },
        final(out)@ == delivered(
            old(filler).on_clock(),
            old(filler).step_by().anchoring(),
            old(filler).fills(),
            done.push(bar),
        ),
{
    let ghost before = out@;
    let mut more = filler.push(bar);
    let ghost added = more@;
    out.append(&mut more);
    proof {
        assert(done.push(bar).drop_last() =~= done);
        assert(out@ =~= before + added);
        if filler.fills() && done.len() > 0 {
            let g = gap(filler.on_clock(), filler.step_by().anchoring(), done.last(), bar);
            assert(before + g.push(bar) =~= before + g + seq![bar]);
        } else if filler.fills() {
            assert(out@ =~= done.push(bar));
        } else {
            assert(out@ =~= done.push(bar));
        }
    }
}

/// Resamples ascending ticks into bars at `interval`, anchoring buckets per `clock`. When `fill` is
/// set, every empty interval between the first and last bar is forward-filled (a flat bar at the
/// previous close, zero volume).
pub fn resample(ticks: &[Tick], interval: Interval, fill: bool, clock: &BarClock) -> (r: Vec<Bar>)
    requires
        steppable(interval),
        sizes_fit(ticks@),
    ensures
        r@ == delivered(
            clock@,
            interval.anchoring(),
            fill,
            bars_of(clock@, interval.anchoring(), tick_aggs(ticks@)),
        ),
{
    let mut out: Vec<Bar> = Vec::new();
    let mut filler = ForwardFiller::new(interval, clock.copy(), fill);
    let mut resampler = Resampler::new(interval, clock.copy());
    let ghost g = interval.anchoring();
    let ghost items = tick_aggs(ticks@);
    let ghost all = bars_of(clock@, g, items);
    let ghost mut done: Seq<Bar> = Seq::empty();
    let ghost mut from: int = 0;
    let mut k: usize = 0;
    while k < ticks.len()
        invariant
            k <= ticks.len(),
            steppable(interval),
            sizes_fit(ticks@),
            g == interval.anchoring(),
            items == tick_aggs(ticks@),
            all == bars_of(clock@, g, items),
            resampler.step_by() == interval,
            resampler.on_clock() == clock@,
            filler.step_by() == interval,
            filler.on_clock() == clock@,
            filler.fills() == fill,
            filler.last() == if fill && done.len() > 0 {
                Some(done.last())
            } else {
                None
            },
            out@ == delivered(clock@, g, fill, done),
            k == 0 ==> done.len() == 0 && resampler.state().run is None,
            k > 0 ==> {
                let state = resampler.state();
                &&& state.run is Some
                &&& all == done + bars_from(clock@, g, state.run->0, state.end, items.skip(k as int))
                &&& 0 <= from < k
                &&& state.run->0.volume == size_sum(ticks@.subrange(from, k as int))
                &&& state.run->0.trades == k - from
                &&& -0x8000_0000_0000_0000 * (k - from) <= state.run->0.mass
                    <= 0x8000_0000_0000_0000 * (k - from)
            },
        decreases ticks.len() - k,
    {
        let tick = &ticks[k];
        let ghost before = resampler.state();
        let ghost item = crate::aggregate::tick_agg(*tick);
        proof {
            assert(items[k as int] == item);
            assert(-0x8000_0000_0000_0000 <= item.mass <= 0x8000_0000_0000_0000) by (nonlinear_arith)
                requires
                    item.mass == tick.price * tick.size,
                    0 <= tick.price < 0x1_0000_0000,
                    -0x8000_0000 <= tick.size <= 0x8000_0000,
            ;
            if k > 0 {
                lemma_size_sum_push(ticks@, from, k as int);
                assert(size_sum(ticks@.subrange(from, k + 1)) <= i64::MAX);
            }
        }
        let closed = resampler.push(tick);
        proof {
            if k > 0 {
                assert(items.skip(k as int)[0] == item);
                assert(items.skip(k as int).drop_first() =~= items.skip(k + 1));
            } else {
                assert(items.drop_first() =~= items.skip(1));
                assert(done + bars_from(
                    clock@,
                    g,
                    resampler.state().run->0,
                    resampler.state().end,
                    items.skip(1),
                ) =~= all);
            }
            if k == 0 || closed is Some {
                from = k as int;
                assert(ticks@.subrange(from, k + 1).drop_last() =~= Seq::<Tick>::empty());
                reveal_with_fuel(size_sum, 2);
            }
        }
        if let Some(bar) = closed {
            deliver(&mut filler, &mut out, bar, Ghost(done));
            proof {
                let rest = bars_from(
                    clock@,
                    g,
                    resampler.state().run->0,
                    resampler.state().end,
                    items.skip(k + 1),
                );
                assert(done + (seq![bar] + rest) =~= done.push(bar) + rest);
                done = done.push(bar);
            }
        }
        k += 1;
    }
    let ghost state = resampler.state();
    if let Some(bar) = resampler.finish() {
        deliver(&mut filler, &mut out, bar, Ghost(done));
        proof {
            assert(items.skip(k as int).len() == 0);
            assert(all =~= done.push(bar));
        }
    } else {
        assert(all =~= done);
    }
    out
}

} // verus!
