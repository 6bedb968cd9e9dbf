//! What resampled bars say of the trades that went into them, and where buckets lie.
use vstd::prelude::*;

use crate::aggregate::Agg;
use crate::civil::CivilDate;
use crate::interval::{Granularity, Interval, IntervalError, IntervalUnit};
use crate::model::{Bar, Tick};
use crate::resample::ClockModel;
use crate::session::SessionModel;

verus! {

// ---- bars and trades ---------------------------------------------------------------------

/// Whether a bar is that of trades: it opens with the first price and closes with the last, its high
/// and low are the highest and lowest price, its volume and trades are theirs, and its average price
/// is what they came to over the volume, where there is any.
pub open spec fn is_bar_of_trades(bar: Bar, ticks: Seq<Tick>) -> bool {
    &&& ticks.len() > 0
    &&& bar.open == ticks[0].price
    &&& bar.close == ticks[ticks.len() - 1].price
    &&& forall|i: int| 0 <= i < ticks.len() ==> bar.low <= (#[trigger] ticks[i]).price <= bar.high
    &&& exists|i: int| 0 <= i < ticks.len() && bar.low == (#[trigger] ticks[i]).price
    &&& exists|i: int| 0 <= i < ticks.len() && bar.high == (#[trigger] ticks[i]).price
    &&& bar.volume == crate::aggregate_laws::size_total(ticks)
    &&& bar.trades == ticks.len()
    &&& bar.vwap is Undefined <==> bar.volume == 0
    &&& bar.volume != 0 ==> crate::aggregate_laws::bar_turnover(bar)
        == crate::aggregate_laws::turnover(ticks)
}

/// Whether bars are made of trades cut at the given places: each of the trades between one cut and
/// the next, timed at the bucket of the first of them, which goes on to the end of the bucket.
pub open spec fn cut_at(
    clock: ClockModel,
    granularity: Granularity,
    ticks: Seq<Tick>,
    bars: Seq<Bar>,
    cuts: Seq<int>,
) -> bool {
    &&& cuts.len() == bars.len() + 1
    &&& cuts[0] == 0
    &&& cuts[bars.len() as int] == ticks.len()
    &&& forall|k: int|
        0 <= k < bars.len() ==> is_cut(clock, granularity, ticks, #[trigger] bars[k], cuts[k], cuts[k + 1])
}

/// Whether a bar is made of the trades from `a` up to `b`.
pub open spec fn is_cut(
    clock: ClockModel,
    granularity: Granularity,
    ticks: Seq<Tick>,
    bar: Bar,
    a: int,
    b: int,
) -> bool {
    let end = clock.bucket_end(granularity, bar.time as int);
    &&& 0 <= a < b <= ticks.len()
    &&& is_bar_of_trades(bar, ticks.subrange(a, b))
    &&& bar.time == clock.bucket(granularity, ticks[a].time as int)
    &&& forall|i: int| a < i < b ==> (#[trigger] ticks[i]).time < end
    &&& b < ticks.len() ==> ticks[b].time >= end
}

/// Whether the sizes of each run of trades fit a bar's volume.
pub open spec fn fit_bars(ticks: Seq<Tick>) -> bool {
    &&& ticks.len() <= u64::MAX
    &&& forall|a: int, b: int|
        0 <= a <= b <= ticks.len() ==> i64::MIN <= #[trigger] crate::aggregate_laws::size_total(
            ticks.subrange(a, b),
        ) <= i64::MAX
}

proof fn lemma_turnover(ticks: Seq<Tick>)
    ensures
        -0x8000_0000_0000_0000 * ticks.len() <= crate::aggregate_laws::turnover(ticks)
            <= 0x7fff_ffff_ffff_ffff * ticks.len(),
    decreases ticks.len(),
{
    if ticks.len() > 0 {
        lemma_turnover(ticks.drop_last());
        let tick = ticks.last();
        assert(-0x8000_0000_0000_0000 <= tick.price * tick.size <= 0x7fff_ffff_ffff_ffff)
            by (nonlinear_arith)
            requires
                0 <= tick.price <= 0xffff_ffff,
                -0x8000_0000 <= tick.size <= 0x7fff_ffff,
        ;
    }
}

proof fn lemma_run_bar(
    clock: ClockModel,
    granularity: Granularity,
    ticks: Seq<Tick>,
    a: int,
    b: int,
)
    requires
        crate::resample::counts(granularity),
        fit_bars(ticks),
        0 <= a < b <= ticks.len(),
    ensures
        ({
            let start = clock.bucket(granularity, ticks[a].time as int);
            let items = crate::resample::tick_aggs(ticks);
            let bar = crate::aggregate::total(items.subrange(a, b)).timed(start).bar();
            &&& is_bar_of_trades(bar, ticks.subrange(a, b))
            &&& bar.time == start
        }),
{
    let part = ticks.subrange(a, b);
    let items = crate::resample::tick_aggs(ticks);
    assert(items.subrange(a, b) =~= crate::resample::tick_aggs(part));
    crate::aggregate_laws::trades_sum_up(part);
    let run = crate::aggregate::total(crate::resample::tick_aggs(part));
    lemma_turnover(part);
    let n = part.len() as int;
    assert(-0x8000_0000_0000_0000 * n >= i128::MIN && 0x7fff_ffff_ffff_ffff * n <= i128::MAX)
        by (nonlinear_arith)
        requires
            0 <= n <= 0xffff_ffff_ffff_ffff,
    ;
    assert(i64::MIN <= crate::aggregate_laws::size_total(ticks.subrange(a, b)) <= i64::MAX);
    let start = clock.bucket(granularity, ticks[a].time as int);
    crate::resample_laws::lemma_bucket_is_a_time(clock, granularity, ticks[a].time);
    let low = choose|i: int| 0 <= i < part.len() && run.low == (#[trigger] part[i]).price;
    let high = choose|i: int| 0 <= i < part.len() && run.high == (#[trigger] part[i]).price;
    assert(0 <= part[low].price <= u32::MAX && 0 <= part[high].price <= u32::MAX);
    let bar = run.timed(start).bar();
    assert(bar.low == part[low].price && bar.high == part[high].price);
}

proof fn lemma_cuts(
    clock: ClockModel,
    granularity: Granularity,
    ticks: Seq<Tick>,
    a: int,
    p: int,
) -> (cuts: Seq<int>)
    requires
        crate::resample::counts(granularity),
        fit_bars(ticks),
        0 <= a < p <= ticks.len(),
        ({
            let start = clock.bucket(granularity, ticks[a].time as int);
            forall|i: int|
                a < i < p ==> (#[trigger] ticks[i]).time < clock.bucket_end(granularity, start)
        }),
    ensures
        ({
            let items = crate::resample::tick_aggs(ticks);
            let start = clock.bucket(granularity, ticks[a].time as int);
            let bars = crate::resample::bars_from(
                clock,
                granularity,
                crate::aggregate::total(items.subrange(a, p)).timed(start),
                clock.bucket_end(granularity, start),
                items.skip(p),
            );
            &&& cuts.len() == bars.len() + 1
            &&& bars.len() > 0
            &&& cuts[0] == a
            &&& cuts[bars.len() as int] == ticks.len()
            &&& forall|k: int|
                0 <= k < bars.len() ==> is_cut(
                    clock,
                    granularity,
                    ticks,
                    #[trigger] bars[k],
                    cuts[k],
                    cuts[k + 1],
                )
        }),
    decreases ticks.len() - p,
{
    let items = crate::resample::tick_aggs(ticks);
    let start = clock.bucket(granularity, ticks[a].time as int);
    let end = clock.bucket_end(granularity, start);
    let run = crate::aggregate::total(items.subrange(a, p)).timed(start);
    let rest = items.skip(p);
    lemma_run_bar(clock, granularity, ticks, a, p);
    if p == ticks.len() {
        let bars = crate::resample::bars_from(clock, granularity, run, end, rest);
        assert(bars =~= seq![run.bar()]);
        seq![a, p]
    } else {
        assert(rest[0] == items[p]);
        assert(items[p] == crate::aggregate::tick_agg(ticks[p]));
        assert(rest.drop_first() =~= items.skip(p + 1));
        if ticks[p].time < end {
            assert(items.subrange(a, p + 1).drop_last() =~= items.subrange(a, p));
            assert(items.subrange(a, p + 1).last() == items[p]);
            assert(crate::aggregate::total(items.subrange(a, p + 1)).timed(start) == run.then_run(
                items[p],
            ));
            lemma_cuts(clock, granularity, ticks, a, p + 1)
        } else {
            let more = lemma_cuts(clock, granularity, ticks, p, p + 1);
            let next = clock.bucket(granularity, ticks[p].time as int);
            assert(items.subrange(p, p + 1) =~= seq![items[p]]);
            assert(crate::aggregate::total(items.subrange(p, p + 1)) == items[p]);
            let later = crate::resample::bars_from(
                clock,
                granularity,
                items[p].timed(next),
                clock.bucket_end(granularity, next),
                items.skip(p + 1),
            );
            let bars = crate::resample::bars_from(clock, granularity, run, end, rest);
            assert(bars =~= seq![run.bar()] + later);
            let cuts = seq![a] + more;
            assert forall|k: int| 0 <= k < bars.len() implies is_cut(
                clock,
                granularity,
                ticks,
                #[trigger] bars[k],
                cuts[k],
                cuts[k + 1],
            ) by {
                if k > 0 {
                    assert(bars[k] == later[k - 1]);
                    assert(cuts[k] == more[k - 1] && cuts[k + 1] == more[k]);
                }
            }
            cuts
        }
    }
}

/// Resampling cuts the trades into runs, one after another and none left out, and makes one bar of
/// each: timed at the bucket of the run's first trade, with its first and last price, highest and
/// lowest, and totals. A run goes on for as long as trades come before the bucket's end.
pub proof fn bars_are_of_consecutive_trades(
    clock: ClockModel,
    granularity: Granularity,
    ticks: Seq<Tick>,
)
    requires
        crate::resample::counts(granularity),
        fit_bars(ticks),
    ensures
        exists|cuts: Seq<int>|
            #[trigger] cut_at(
                clock,
                granularity,
                ticks,
                crate::resample::bars_of(clock, granularity, crate::resample::tick_aggs(ticks)),
                cuts,
            ),
{
    let items = crate::resample::tick_aggs(ticks);
    let bars = crate::resample::bars_of(clock, granularity, items);
    if ticks.len() == 0 {
        assert(cut_at(clock, granularity, ticks, bars, seq![0int]));
    } else {
        assert(items[0] == crate::aggregate::tick_agg(ticks[0]));
        assert(items.subrange(0, 1) =~= seq![items[0]]);
        assert(crate::aggregate::total(items.subrange(0, 1)) == items[0]);
        assert(items.skip(1) =~= items.drop_first());
        let cuts = lemma_cuts(clock, granularity, ticks, 0, 1);
        assert(cut_at(clock, granularity, ticks, bars, cuts));
    }
}

// ---- where buckets lie -------------------------------------------------------------------

/// An intraday bucket that is counted from the epoch starts at a multiple of its length, at or before
/// the instant, and the instant is less than a length past it; it is a length long.
pub proof fn intraday_buckets_are_multiples(clock: ClockModel, secs: u32, time: u32)
    requires
        secs > 0,
        !(clock is Session),
    ensures
        ({
            let g = Granularity::SubDay(secs);
            let start = clock.bucket(g, time as int);
            &&& start % secs as int == 0
            &&& start <= time < start + secs
            &&& start + secs <= u32::MAX ==> clock.bucket_end(g, start) == start + secs
            &&& start + secs <= u32::MAX ==> clock.next(g, start) == start + secs
        }),
{
    let (t, s) = (time as int, secs as int);
    vstd::arithmetic::div_mod::lemma_fundamental_div_mod(t, s);
    let q = t / s;
    assert(t - t % s == q * s) by (nonlinear_arith)
        requires
            t == s * q + t % s,
    ;
    vstd::arithmetic::div_mod::lemma_mod_multiples_basic(q, s);
    vstd::arithmetic::div_mod::lemma_mod_bound(t, s);
}

/// An intraday bucket of a session starts a whole number of lengths from the instant at which the
/// session opens on the local date, holds its instant and is a length long.
pub proof fn session_buckets_count_from_the_open(session: SessionModel, secs: u32, time: u32)
    requires
        secs > 0,
        session.valid(),
        session.open_at(time as int) is Some,
    ensures
        ({
            let clock = ClockModel::Session(session);
            let g = Granularity::SubDay(secs);
            let f = crate::civil::local_fields(session.zone, time as int)->0;
            let open = session.open_at(time as int)->0;
            let start = clock.bucket(g, time as int);
            &&& crate::civil::civil_second(
                session.zone,
                (f.0, f.1, f.2, (session.open / 60) as i8, (session.open % 60) as i8, 0i8),
                0,
            ) == Some(open as i64)
            &&& start <= time < start + secs
            &&& open <= time ==> (start - open) % secs as int == 0 && start >= open
            &&& start + secs <= u32::MAX ==> clock.bucket_end(g, start) == start + secs
        }),
{
    let open = session.open_at(time as int)->0;
    let (d, s) = (time - open, secs as int);
    vstd::arithmetic::div_mod::lemma_fundamental_div_mod(d, s);
    vstd::arithmetic::div_mod::lemma_mod_bound(d, s);
    let q = d / s;
    assert(s * q == q * s) by (nonlinear_arith);
    vstd::arithmetic::div_mod::lemma_mod_multiples_basic(q, s);
    crate::resample_laws::sub_day_bucket_holds_its_instant(
        ClockModel::Session(session),
        secs,
        time,
    );
    if open <= time {
        assert(q >= 0) by (nonlinear_arith)
            requires
                q == d / s,
                d >= 0,
                s > 0,
        ;
        assert(q * s >= 0) by (nonlinear_arith)
            requires
                q >= 0,
                s > 0,
        ;
    }
}

/// Whether a date is where a calendar bucket may start: any day that is a multiple, a Monday, the
/// first of a month, the first of January. Day 4 of the epoch is a Monday.
pub open spec fn starts_a_bucket(date: CivilDate, granularity: Granularity) -> bool {
    match granularity {
        Granularity::SubDay(_) => false,
        Granularity::Day(n) => date.number() % n as int == 0,
        Granularity::Week(n) => date.number() % 7 == 4 && ((date.number() - 4) / 7) % n as int == 0,
        Granularity::Month(n) => date.day == 1 && (12 * date.year + date.month - 1) % n as int == 0,
        Granularity::Year(n) => date.day == 1 && date.month == 1 && date.year as int % n as int == 0,
    }
}

/// Calendar buckets start on multiples of days, on Mondays, on the first of a month and on the first
/// of January, and each starts on or before the dates it holds.
pub proof fn calendar_buckets_start_on_their_days(date: CivilDate, granularity: Granularity)
    requires
        date.valid(),
        !(granularity is SubDay),
        crate::resample::counts(granularity),
        crate::resample::floor_date(date, granularity) is Some,
    ensures
        ({
            let first = crate::resample::floor_date(date, granularity)->0;
            &&& first.valid()
            &&& starts_a_bucket(first, granularity)
            &&& first.number() <= date.number()
        }),
{
    crate::resample_laws::calendar_bucket_holds_its_date(date, granularity);
    let first = crate::resample::floor_date(date, granularity)->0;
    crate::civil::lemma_number_bounds();
    crate::civil::lemma_number_in_year(date);
    match granularity {
        Granularity::SubDay(_) => {},
        Granularity::Day(n) => {
            let q = date.number() / n as int;
            crate::civil::lemma_date_exists(q * n);
            vstd::arithmetic::div_mod::lemma_mod_multiples_basic(q, n as int);
        },
        Granularity::Week(n) => {
            let q = (date.number() - 4) / 7 / n as int;
            let w = q * n;
            crate::civil::lemma_date_exists(4 + w * 7);
            assert(first.number() == 4 + w * 7);
            assert((4 + w * 7) % 7 == 4 && (w * 7) / 7 == w);
            vstd::arithmetic::div_mod::lemma_mod_multiples_basic(q, n as int);
        },
        Granularity::Month(n) => {
            let q = date.month_number() / n as int;
            let bucket = q * n;
            vstd::arithmetic::div_mod::lemma_mod_multiples_basic(q, n as int);
            assert(12 * (bucket / 12) + bucket % 12 == bucket);
            assert(first.year == bucket / 12 && first.month == bucket % 12 + 1);
        },
        Granularity::Year(n) => {
            let q = date.year as int / n as int;
            vstd::arithmetic::div_mod::lemma_mod_multiples_basic(q, n as int);
            assert(first.year == q * n);
        },
    }
}

/// A calendar bucket is as many days, weeks, months or years long as it says.
pub proof fn calendar_buckets_are_as_long_as_they_say(date: CivilDate, granularity: Granularity)
    requires
        date.valid(),
        date.day == 1,
        !(granularity is SubDay),
        crate::resample::counts(granularity),
        crate::resample::next_date(date, granularity) is Some,
    ensures
        ({
            let next = crate::resample::next_date(date, granularity)->0;
            match granularity {
                Granularity::SubDay(_) => false,
                Granularity::Day(n) => next.number() == date.number() + n,
                Granularity::Week(n) => next.number() == date.number() + 7 * n,
                Granularity::Month(n) => next.day == 1 && 12 * next.year + next.month == 12
                    * date.year + date.month + n,
                Granularity::Year(n) => next.day == 1 && next.month == date.month && next.year
                    == date.year + n,
            }
        }),
{
    crate::civil::lemma_number_bounds();
    match granularity {
        Granularity::Day(n) => {
            crate::civil::lemma_date_exists(date.number() + n);
        },
        Granularity::Week(n) => {
            crate::civil::lemma_date_exists(date.number() + n * 7);
        },
        _ => {},
    }
}

/// A calendar bucket begins at the local midnight of its first date, in the zone of the clock.
pub proof fn calendar_buckets_begin_at_midnight(
    clock: ClockModel,
    granularity: Granularity,
    time: u32,
    first: CivilDate,
    second: i64,
)
    requires
        !(granularity is SubDay),
        ({
            let f = crate::civil::local_fields(clock.zone(), time as int)->0;
            crate::resample::floor_date(CivilDate { year: f.0, month: f.1, day: f.2 }, granularity)
                == Some(first)
        }),
        crate::civil::civil_second(
            clock.zone(),
            (first.year, first.month, first.day, 0i8, 0i8, 0i8),
            0,
        ) == Some(second),
        0 <= second <= u32::MAX,
    ensures
        clock.bucket(granularity, time as int) == second,
{
}

/// The zone of a clock: `UTC`, the one it names, or its session's.
pub proof fn clocks_have_their_zones(zone: Seq<char>, session: SessionModel)
    ensures
        ClockModel::Utc.zone() == "UTC"@,
        ClockModel::Zoned(zone).zone() == zone,
        ClockModel::Session(session).zone() == session.zone,
{
}

// ---- intervals ---------------------------------------------------------------------------

/// Whether a token is an interval of so many units, and that is anchored so.
pub open spec fn means(
    token: Seq<char>,
    count: u32,
    unit: IntervalUnit,
    anchored: Granularity,
) -> bool {
    &&& crate::interval::token_meaning(token) == Some(
        Ok::<(nat, IntervalUnit), IntervalError>((count as nat, unit)),
    )
    &&& forall|i: Interval|
        i.units() == count && i.kind() == unit ==> #[trigger] i.anchoring() == anchored && i.token()
            == token
}

proof fn lemma_token(count: u32, suffix: char, unit: IntervalUnit)
    requires
        1 <= count <= 100_000,
        crate::interval::letter_unit(suffix) == Some(unit),
        suffix != 'o',
    ensures
        crate::interval::token_meaning(crate::text::decimal(count as nat).push(suffix)) == Some(
            Ok::<(nat, IntervalUnit), IntervalError>((count as nat, unit)),
        ),
{
    let digits = crate::text::decimal(count as nat);
    crate::text::lemma_decimal_digits(count as nat);
    crate::text::decimal_round_trip(count as nat);
    assert(digits.push(suffix).drop_last() =~= digits);
}

/// Intervals are what their tokens say: `5m` is buckets of three hundred seconds, `2h` of seven
/// thousand two hundred, `1w` of one week from Monday, and so on for every count.
pub proof fn intervals_are_as_long_as_they_say(n: u32)
    requires
        1 <= n <= 100_000,
    ensures
        ({
            let d = crate::text::decimal(n as nat);
            &&& means(d.push('s'), n, IntervalUnit::Second, Granularity::SubDay(n))
            &&& means(d.push('m'), n, IntervalUnit::Minute, Granularity::SubDay((60 * n) as u32))
            &&& means(d.push('h'), n, IntervalUnit::Hour, Granularity::SubDay((3_600 * n) as u32))
            &&& means(d.push('d'), n, IntervalUnit::Day, Granularity::Day(n))
            &&& means(d.push('w'), n, IntervalUnit::Week, Granularity::Week(n))
            &&& means(d.push('m').push('o'), n, IntervalUnit::Month, Granularity::Month(n))
            &&& means(d.push('y'), n, IntervalUnit::Year, Granularity::Year(n))
        }),
{
    let d = crate::text::decimal(n as nat);
    lemma_token(n, 's', IntervalUnit::Second);
    lemma_token(n, 'm', IntervalUnit::Minute);
    lemma_token(n, 'h', IntervalUnit::Hour);
    lemma_token(n, 'd', IntervalUnit::Day);
    lemma_token(n, 'w', IntervalUnit::Week);
    lemma_token(n, 'y', IntervalUnit::Year);
    let mo = d.push('m').push('o');
    crate::text::lemma_decimal_digits(n as nat);
    crate::text::decimal_round_trip(n as nat);
    assert(mo.take(mo.len() - 2) =~= d);
    assert(d + seq!['s'] =~= d.push('s') && d + seq!['m'] =~= d.push('m') && d + seq!['h']
        =~= d.push('h') && d + seq!['d'] =~= d.push('d') && d + seq!['w'] =~= d.push('w') && d
        + seq!['y'] =~= d.push('y') && d + seq!['m', 'o'] =~= mo);
}

pub open spec fn refused(error: IntervalError) -> Option<Result<(nat, IntervalUnit), IntervalError>> {
    Some(Err(error))
}

/// An interval of nothing, or of more than a hundred thousand units, is refused.
pub proof fn odd_counts_are_refused(n: nat, unit: char)
    requires
        unit == 's' || unit == 'm' || unit == 'h' || unit == 'd' || unit == 'w' || unit == 'y',
    ensures
        ({
            let meaning = crate::interval::token_meaning(crate::text::decimal(n).push(unit));
            &&& n == 0 ==> meaning == refused(IntervalError::Zero)
            &&& n > u32::MAX ==> meaning == refused(IntervalError::TooLarge)
            &&& 100_000 < n <= u32::MAX ==> meaning == refused(IntervalError::AboveMaximum)
            &&& 1 <= n <= 100_000 ==> meaning is Some && meaning->0 is Ok
        }),
{
    let digits = crate::text::decimal(n);
    crate::text::lemma_decimal_digits(n);
    crate::text::decimal_round_trip(n);
    assert(digits.push(unit).drop_last() =~= digits);
}

// ---- sessions ----------------------------------------------------------------------------

/// A clock time as hours and minutes, two numerals each.
pub open spec fn clock_written(minute: int) -> Seq<char> {
    crate::civil::two_digits(minute / 60) + seq![':'] + crate::civil::two_digits(minute % 60)
}

/// Hours read as they are written: `09:30-16:00` opens at 570 minutes past midnight and closes at 960.
/// They have to open before they close.
pub proof fn hours_read_as_they_are_written(open: int, close: int)
    requires
        0 <= open < 1_440,
        0 <= close < 1_440,
    ensures
        crate::session::hours_of(clock_written(open) + seq!['-'] + clock_written(close)) == (if open
            < close {
            Some((open, close))
        } else {
            None
        }),
{
    let s = clock_written(open) + seq!['-'] + clock_written(close);
    assert(s.len() == 11 && s[5] == '-');
    assert(s.subrange(0, 5) =~= clock_written(open));
    assert(s.subrange(6, 11) =~= clock_written(close));
    lemma_clock(s, 0, open);
    lemma_clock(s, 6, close);
}

proof fn lemma_clock(s: Seq<char>, at: int, minute: int)
    requires
        0 <= minute < 1_440,
        0 <= at <= at + 5 <= s.len(),
        s.subrange(at, at + 5) == clock_written(minute),
    ensures
        crate::session::clock_at(s, at) == Some(minute),
{
    let t = s.subrange(at, at + 5);
    assert(t[0] == s[at] && t[1] == s[at + 1] && t[2] == s[at + 2] && t[3] == s[at + 3] && t[4]
        == s[at + 4]);
    let (h, m) = (minute / 60, minute % 60);
    let a = s.subrange(at, at + 2);
    let b = s.subrange(at + 3, at + 5);
    assert(a =~= crate::civil::two_digits(h));
    assert(b =~= crate::civil::two_digits(m));
    reveal_with_fuel(crate::text::decimal_value, 3);
    assert(a.drop_last().drop_last() =~= Seq::<char>::empty());
    assert(b.drop_last().drop_last() =~= Seq::<char>::empty());
    assert(a.drop_last().last() == a[0] && b.drop_last().last() == b[0]);
}

/// A session holds the instants whose local time of day is at or after its open and before its close.
pub proof fn sessions_hold_their_hours(session: SessionModel, time: int)
    ensures
        ({
            let f = crate::civil::local_fields(session.zone, time)->0;
            let minute = 60 * f.3 + f.4;
            session.holds(time) <==> session.open <= minute && minute < session.close
        }),
{
}

// ---- filling -----------------------------------------------------------------------------

/// Whether a bar has no trades and stands flat at a price.
pub open spec fn is_flat(bar: Bar, price: u32) -> bool {
    &&& bar.open == price && bar.high == price && bar.low == price && bar.close == price
    &&& bar.volume == 0 && bar.trades == 0
    &&& bar.vwap == crate::model::Vwap::Price(price)
}

proof fn lemma_flats(
    clock: ClockModel,
    granularity: Granularity,
    price: u32,
    at: int,
    until: int,
    stop: Option<int>,
    k: int,
)
    requires
        0 <= at,
        until <= u32::MAX,
        0 <= k < crate::resample::flats(clock, granularity, price, at, until, stop).len(),
    ensures
        ({
            let bars = crate::resample::flats(clock, granularity, price, at, until, stop);
            &&& is_flat(bars[k], price)
            &&& at <= bars[k].time < until
            &&& stop is Some ==> bars[k].time < stop->0
            &&& bars[0].time == at
            &&& k > 0 ==> bars[k].time == clock.next(granularity, bars[k - 1].time as int)
        }),
    decreases k,
{
    let bars = crate::resample::flats(clock, granularity, price, at, until, stop);
    let next = clock.next(granularity, at);
    assert(bars[0] == crate::resample::flat_bar(at, price));
    if k > 0 {
        let rest = crate::resample::flats(clock, granularity, price, next, until, stop);
        assert(bars[k] == rest[k - 1]);
        lemma_flats(clock, granularity, price, next, until, stop, k - 1);
        if k > 1 {
            assert(bars[k - 1] == rest[k - 2]);
        }
    }
}

/// What fills a gap are flat bars at the close before it, one interval after another from the bar
/// before the gap on, up to the bar after it, and within a session's hours on a session's clock.
pub proof fn gaps_are_filled_flat(
    clock: ClockModel,
    granularity: Granularity,
    prev: Bar,
    bar: Bar,
    k: int,
)
    requires
        0 <= clock.next(granularity, prev.time as int),
        0 <= k < crate::resample::gap(clock, granularity, prev, bar).len(),
    ensures
        ({
            let bars = crate::resample::gap(clock, granularity, prev, bar);
            let stop = clock.fill_end(granularity, prev.time as int);
            &&& is_flat(bars[k], prev.close)
            &&& bars[k].time < bar.time
            &&& bars[k].time == clock.next(
                granularity,
                if k == 0 {
                    prev.time as int
                } else {
                    bars[k - 1].time as int
                },
            )
            &&& stop is Some ==> bars[k].time < stop->0
        }),
{
    lemma_flats(
        clock,
        granularity,
        prev.close,
        clock.next(granularity, prev.time as int),
        bar.time as int,
        clock.fill_end(granularity, prev.time as int),
        k,
    );
}

/// Filling within a session ends as long after its open as the session is; calendar bars, and bars on
/// another clock, are filled without such an end.
pub proof fn filling_ends_with_the_session(
    session: SessionModel,
    clock: ClockModel,
    granularity: Granularity,
    secs: u32,
    start: int,
)
    ensures
        ({
            let open = session.open_at(start);
            let stop = ClockModel::Session(session).fill_end(Granularity::SubDay(secs), start);
            &&& stop is Some <==> open is Some
            &&& open is Some && open->0 + 60 * (session.close - session.open) <= u32::MAX ==> stop
                == Some(open->0 + 60 * (session.close - session.open))
        }),
        !(granularity is SubDay) ==> clock.fill_end(granularity, start) is None,
        !(clock is Session) ==> clock.fill_end(granularity, start) is None,
{
}

/// A filled series has the bars of the bare one, each behind what fills the gap before it.
pub proof fn filled_series_bridge_each_gap(
    clock: ClockModel,
    granularity: Granularity,
    bars: Seq<Bar>,
    bar: Bar,
)
    ensures
        crate::resample::with_gaps(clock, granularity, seq![bar]) == seq![bar],
        bars.len() > 0 ==> crate::resample::with_gaps(clock, granularity, bars.push(bar))
            == crate::resample::with_gaps(clock, granularity, bars) + crate::resample::gap(
            clock,
            granularity,
            bars.last(),
            bar,
        ) + seq![bar],
        crate::resample::delivered(clock, granularity, false, bars) == bars,
        crate::resample::delivered(clock, granularity, true, bars) == crate::resample::with_gaps(
            clock,
            granularity,
            bars,
        ),
{
    assert(bars.push(bar).drop_last() =~= bars);
}

} // verus!
