//! What resampling keeps.
use vstd::prelude::*;

use crate::aggregate as agg;
use crate::aggregate::Agg;
use crate::interval::Granularity;
use crate::model::{Bar, Tick, Vwap};
use crate::resample as rs;
use crate::resample::{ClockModel, RunState};

verus! {

/// A bucket on the epoch or on a session's open holds its instant: it starts at or before the
/// instant and, unless it reaches the end of representable time, ends after it.
pub proof fn sub_day_bucket_holds_its_instant(clock: ClockModel, secs: u32, time: u32)
    requires
        secs > 0,
    ensures
        ({
            let start = clock.bucket(Granularity::SubDay(secs), time as int);
            let end = clock.bucket_end(Granularity::SubDay(secs), start);
            &&& 0 <= start <= time
            &&& time - secs < start
            &&& time < end || end == u32::MAX
        }),
{
    vstd::arithmetic::div_mod::lemma_mod_decreases(time as nat, secs as nat);
    if let ClockModel::Session(session) = clock {
        if let Some(open) = session.open_at(time as int) {
            let delta = time - open;
            let q = delta / secs as int;
            assert(delta - secs < q * secs <= delta) by (nonlinear_arith)
                requires
                    secs > 0,
                    q == delta / secs as int,
            ;
        }
    }
}

/// Flooring an instant twice is flooring it once, for buckets counted from the epoch.
pub proof fn epoch_floor_is_idempotent(time: int, secs: int)
    requires
        secs > 0,
    ensures
        rs::epoch_floor(rs::epoch_floor(time, secs), secs) == rs::epoch_floor(time, secs),
{
    let m = time % secs;
    assert((time - m) % secs == 0) by (nonlinear_arith)
        requires
            secs > 0,
            m == time % secs,
    ;
}

/// A session bucket starts a whole number of intervals away from the session's open.
pub proof fn session_bucket_is_aligned_to_open(
    session: crate::session::SessionModel,
    secs: u32,
    time: u32,
)
    requires
        secs > 0,
        rs::open_floor(session, secs as int, time as int) is Some,
    ensures
        (rs::open_floor(session, secs as int, time as int)->0 - session.open_at(time as int)->0)
            % secs as int == 0,
{
    let open = session.open_at(time as int)->0;
    let q = (time - open) / secs as int;
    assert((q * secs) % secs as int == 0) by (nonlinear_arith)
        requires
            secs > 0,
    ;
}

/// A calendar bucket holds its date: it starts on or before the date, and the next one starts
/// after it.
pub proof fn calendar_bucket_holds_its_date(
    date: crate::civil::CivilDate,
    granularity: Granularity,
)
    requires
        date.valid(),
        !(granularity is SubDay),
        rs::counts(granularity),
        rs::floor_date(date, granularity) is Some,
    ensures
        ({
            let first = rs::floor_date(date, granularity)->0;
            &&& first.valid()
            &&& first.number() <= date.number()
            &&& rs::next_date(first, granularity) matches Some(next) ==> next.valid()
                && date.number() < next.number()
        }),
{
    let first = rs::floor_date(date, granularity)->0;
    crate::civil::lemma_number_bounds();
    crate::civil::lemma_number_in_year(date);
    match granularity {
        Granularity::SubDay(_) => {},
        Granularity::Day(n) => {
            let q = date.number() / n as int;
            assert(q * n <= date.number() < q * n + n) by (nonlinear_arith)
                requires
                    n > 0,
                    q == date.number() / n as int,
            ;
            crate::civil::lemma_date_exists(q * n);
            if rs::next_date(first, granularity) is Some {
                crate::civil::lemma_date_exists(q * n + n);
            }
        },
        Granularity::Week(n) => {
            let w = (date.number() - 4) / 7;
            let q = w / n as int;
            assert(q * n <= w < q * n + n) by (nonlinear_arith)
                requires
                    n > 0,
                    q == w / n as int,
            ;
            crate::civil::lemma_date_exists(4 + q * n * 7);
            if rs::next_date(first, granularity) is Some {
                crate::civil::lemma_date_exists(4 + q * n * 7 + n * 7);
            }
        },
        Granularity::Month(n) => {
            let m = date.month_number();
            let q = m / n as int;
            assert(q * n <= m < q * n + n) by (nonlinear_arith)
                requires
                    n > 0,
                    q == m / n as int,
            ;
            assert(first.month_number() == q * n);
            crate::civil::number_orders_dates(first, date);
            if let Some(next) = rs::next_date(first, granularity) {
                assert(next.month_number() == q * n + n);
                crate::civil::number_orders_dates(date, next);
            }
        },
        Granularity::Year(n) => {
            let q = date.year as int / n as int;
            assert(q * n <= date.year < q * n + n) by (nonlinear_arith)
                requires
                    n > 0,
                    q == date.year as int / n as int,
            ;
            crate::civil::number_orders_dates(first, date);
            if let Some(next) = rs::next_date(first, granularity) {
                assert(next.month_number() == first.month_number() + n * 12);
                assert(next.year == first.year + n);
                crate::civil::number_orders_dates(date, next);
            }
        },
    }
}

/// Feeds items one after another: the state they leave and the bars they closed.
pub open spec fn feed(
    clock: ClockModel,
    granularity: Granularity,
    state: RunState,
    items: Seq<Agg>,
) -> (RunState, Seq<Bar>)
    decreases items.len(),
{
    if items.len() == 0 {
        (state, Seq::empty())
    } else {
        let (before, bars) = feed(clock, granularity, state, items.drop_last());
        let (after, closed) = rs::step(clock, granularity, before, items.last());
        (
            after,
            bars + match closed {
                Some(bar) => seq![bar],
                None => Seq::empty(),
            },
        )
    }
}

/// The bar of the run that a state leaves open.
pub open spec fn flush(state: RunState) -> Seq<Bar> {
    match state.run {
        Some(run) => seq![run.bar()],
        None => Seq::empty(),
    }
}

/// A resampler that has seen nothing.
pub open spec fn fresh() -> RunState {
    RunState { run: None, end: 0 }
}

/// Feeding two stretches one after the other is feeding them as one: where one file ends and the
/// next begins makes no difference to the bars.
pub proof fn feeding_in_pieces(
    clock: ClockModel,
    granularity: Granularity,
    state: RunState,
    a: Seq<Agg>,
    b: Seq<Agg>,
)
    ensures
        ({
            let (mid, first) = feed(clock, granularity, state, a);
            let (end, second) = feed(clock, granularity, mid, b);
            feed(clock, granularity, state, a + b) == (end, first + second)
        }),
    decreases b.len(),
{
    let (mid, first) = feed(clock, granularity, state, a);
    if b.len() == 0 {
        assert(a + b =~= a);
        assert(first + Seq::<Bar>::empty() =~= first);
    } else {
        feeding_in_pieces(clock, granularity, state, a, b.drop_last());
        assert((a + b).drop_last() =~= a + b.drop_last());
        let (before, bars) = feed(clock, granularity, mid, b.drop_last());
        let (after, closed) = rs::step(clock, granularity, before, b.last());
        let last = match closed {
            Some(bar) => seq![bar],
            None => Seq::empty(),
        };
        assert(first + (bars + last) =~= (first + bars) + last);
    }
}

proof fn lemma_feed_from(
    clock: ClockModel,
    granularity: Granularity,
    run: Agg,
    end: int,
    items: Seq<Agg>,
)
    ensures
        ({
            let (state, bars) = feed(
                clock,
                granularity,
                RunState { run: Some(run), end },
                items,
            );
            rs::bars_from(clock, granularity, run, end, items) == bars + flush(state)
        }),
    decreases items.len(),
{
    let start = RunState { run: Some(run), end };
    if items.len() > 0 {
        let head = seq![items[0]];
        let tail = items.drop_first();
        assert(items =~= head + tail);
        feeding_in_pieces(clock, granularity, start, head, tail);
        assert(head.drop_last() =~= Seq::<Agg>::empty());
        reveal_with_fuel(feed, 2);
        let (mid, closed) = rs::step(clock, granularity, start, items[0]);
        lemma_feed_from(clock, granularity, mid.run->0, mid.end, tail);
        let (after, bars) = feed(clock, granularity, mid, tail);
        match closed {
            Some(bar) => {
                assert(Seq::<Bar>::empty() + seq![bar] =~= seq![bar]);
                assert((seq![bar] + bars) + flush(after) =~= seq![bar] + (bars + flush(after)));
            },
            None => {
                assert(Seq::<Bar>::empty() + Seq::<Bar>::empty() =~= Seq::<Bar>::empty());
                assert(Seq::<Bar>::empty() + bars =~= bars);
            },
        }
    }
}

/// Pushing every item through a resampler and finishing it gives the bars of the whole stretch.
pub proof fn pushing_gives_the_bars(clock: ClockModel, granularity: Granularity, items: Seq<Agg>)
    ensures
        ({
            let (state, bars) = feed(clock, granularity, fresh(), items);
            bars + flush(state) == rs::bars_of(clock, granularity, items)
        }),
{
    if items.len() > 0 {
        let head = seq![items[0]];
        let tail = items.drop_first();
        assert(items =~= head + tail);
        feeding_in_pieces(clock, granularity, fresh(), head, tail);
        assert(head.drop_last() =~= Seq::<Agg>::empty());
        reveal_with_fuel(feed, 2);
        let (mid, closed) = rs::step(clock, granularity, fresh(), items[0]);
        lemma_feed_from(clock, granularity, mid.run->0, mid.end, tail);
        assert(Seq::<Bar>::empty() + Seq::<Bar>::empty() =~= Seq::<Bar>::empty());
        let (after, bars) = feed(clock, granularity, mid, tail);
        assert(Seq::<Bar>::empty() + bars =~= bars);
    } else {
        assert(Seq::<Bar>::empty() + Seq::<Bar>::empty() =~= Seq::<Bar>::empty());
    }
}

pub open spec fn volume_sum(bars: Seq<Bar>) -> int
    decreases bars.len(),
{
    if bars.len() == 0 {
        0
    } else {
        bars[0].volume + volume_sum(bars.drop_first())
    }
}

pub open spec fn trade_sum(bars: Seq<Bar>) -> int
    decreases bars.len(),
{
    if bars.len() == 0 {
        0
    } else {
        bars[0].trades + trade_sum(bars.drop_first())
    }
}

/// A run whose totals fit a bar and whose prices are in order.
spec fn sound(run: Agg) -> bool {
    &&& run.fits()
    &&& 0 <= run.time <= u32::MAX
    &&& 0 <= run.low <= run.open <= run.high <= u32::MAX
    &&& run.low <= run.close <= run.high
}

spec fn tail_size(ticks: Seq<Tick>, k: int) -> int
    decreases ticks.len() - k,
{
    if 0 <= k < ticks.len() {
        ticks[k].size + tail_size(ticks, k + 1)
    } else {
        0
    }
}

proof fn lemma_tail_size(ticks: Seq<Tick>, k: int)
    requires
        0 <= k <= ticks.len(),
    ensures
        tail_size(ticks, k) == rs::size_sum(ticks) - rs::size_sum(ticks.take(k)),
    decreases ticks.len() - k,
{
    if k < ticks.len() {
        lemma_tail_size(ticks, k + 1);
        assert(ticks.take(k + 1).drop_last() =~= ticks.take(k));
    } else {
        assert(ticks.take(k) =~= ticks);
    }
}

/// A run of the trades from `from` up to `k`, as a resampler holds it.
spec fn run_of(ticks: Seq<Tick>, from: int, k: int, run: Agg) -> bool {
    &&& 0 <= from < k <= ticks.len()
    &&& sound(run)
    &&& run.volume == rs::size_sum(ticks.subrange(from, k))
    &&& run.trades == k - from
    &&& -0x8000_0000_0000_0000 * (k - from) <= run.mass <= 0x8000_0000_0000_0000 * (k - from)
}

proof fn lemma_tick_mass(tick: Tick)
    ensures
        -0x8000_0000_0000_0000 <= agg::tick_agg(tick).mass <= 0x8000_0000_0000_0000,
{
    assert(-0x8000_0000_0000_0000 <= tick.price * tick.size <= 0x8000_0000_0000_0000)
        by (nonlinear_arith)
        requires
            0 <= tick.price < 0x1_0000_0000,
            -0x8000_0000 <= tick.size <= 0x8000_0000,
    ;
}

/// Taking the next trade in keeps a run in shape, and so does opening a bucket with it.
proof fn lemma_run_steps(ticks: Seq<Tick>, from: int, k: int, run: Agg, start: int)
    requires
        ticks.len() <= u64::MAX,
        rs::sizes_fit(ticks),
        run_of(ticks, from, k, run),
        k < ticks.len(),
        0 <= start <= u32::MAX,
    ensures
        run_of(ticks, from, k + 1, run.then_run(agg::tick_agg(ticks[k]))),
        run_of(ticks, k, k + 1, agg::tick_agg(ticks[k]).timed(start)),
{
    lemma_tick_mass(ticks[k]);
    assert(ticks.subrange(from, k + 1).drop_last() =~= ticks.subrange(from, k));
    assert(i64::MIN <= rs::size_sum(ticks.subrange(from, k + 1)) <= i64::MAX);
    reveal_with_fuel(rs::size_sum, 2);
    assert(ticks.subrange(k, k + 1).drop_last() =~= Seq::<Tick>::empty());
}

pub(crate) proof fn lemma_bucket_is_a_time(clock: ClockModel, granularity: Granularity, time: u32)
    requires
        rs::counts(granularity),
    ensures
        0 <= clock.bucket(granularity, time as int) <= u32::MAX,
{
    if let Granularity::SubDay(secs) = granularity {
        sub_day_bucket_holds_its_instant(clock, secs, time);
    } else {
        vstd::arithmetic::div_mod::lemma_mod_decreases(time as nat, 86_400);
    }
}

/// What holds of the bars that come from an open run and the trades after it.
proof fn lemma_bars_from(
    clock: ClockModel,
    granularity: Granularity,
    ticks: Seq<Tick>,
    from: int,
    k: int,
    run: Agg,
    end: int,
)
    requires
        ticks.len() <= u64::MAX,
        rs::sizes_fit(ticks),
        rs::counts(granularity),
        run_of(ticks, from, k, run),
    ensures
        ({
            let bars = rs::bars_from(clock, granularity, run, end, rs::tick_aggs(ticks).skip(k));
            &&& bars.len() >= 1
            &&& volume_sum(bars) == run.volume + tail_size(ticks, k)
            &&& trade_sum(bars) == run.trades + (ticks.len() - k)
            &&& bars[0].time == run.time
            &&& bars[0].open == run.open
            &&& bars.last().close == (if k < ticks.len() {
                ticks.last().price as int
            } else {
                run.close
            })
            &&& forall|i: int| 0 <= i < bars.len() ==> in_order(#[trigger] bars[i])
        }),
    decreases ticks.len() - k,
{
    let items = rs::tick_aggs(ticks);
    let rest = items.skip(k);
    let bars = rs::bars_from(clock, granularity, run, end, rest);
    if k == ticks.len() {
        assert(bars =~= seq![run.bar()]);
        assert(bars.drop_first() =~= Seq::<Bar>::empty());
        reveal_with_fuel(volume_sum, 2);
        reveal_with_fuel(trade_sum, 2);
    } else {
        let item = agg::tick_agg(ticks[k]);
        assert(rest[0] == item);
        assert(rest.drop_first() =~= items.skip(k + 1));
        let start = clock.bucket(granularity, item.time);
        lemma_bucket_is_a_time(clock, granularity, ticks[k].time);
        lemma_run_steps(ticks, from, k, run, start);
        if item.time < end {
            lemma_bars_from(clock, granularity, ticks, from, k + 1, run.then_run(item), end);
        } else {
            let opened = item.timed(start);
            let more = rs::bars_from(
                clock,
                granularity,
                opened,
                clock.bucket_end(granularity, start),
                items.skip(k + 1),
            );
            lemma_bars_from(
                clock,
                granularity,
                ticks,
                k,
                k + 1,
                opened,
                clock.bucket_end(granularity, start),
            );
            assert(bars == seq![run.bar()] + more);
            assert(bars.drop_first() =~= more);
            assert(bars.last() == more.last());
            assert forall|i: int| 0 <= i < bars.len() implies in_order(#[trigger] bars[i]) by {
                if i > 0 {
                    assert(bars[i] == more[i - 1]);
                }
            }
        }
    }
}

/// A bar whose open and close lie between its low and its high, with at least one trade.
pub open spec fn in_order(bar: Bar) -> bool {
    &&& bar.low <= bar.open <= bar.high
    &&& bar.low <= bar.close <= bar.high
    &&& bar.trades >= 1
}

/// Resampling loses and invents nothing: the bars' volumes add up to the trades' sizes and their
/// trade counts to the number of trades; the first bar opens at the first price, the last closes at
/// the last; and every bar's open and close lie between its low and its high.
pub proof fn resampling_conserves(clock: ClockModel, granularity: Granularity, ticks: Seq<Tick>)
    requires
        ticks.len() <= u64::MAX,
        rs::sizes_fit(ticks),
        rs::counts(granularity),
    ensures
        ({
            let bars = rs::bars_of(clock, granularity, rs::tick_aggs(ticks));
            &&& volume_sum(bars) == rs::size_sum(ticks)
            &&& trade_sum(bars) == ticks.len()
            &&& bars.len() == 0 <==> ticks.len() == 0
            &&& ticks.len() > 0 ==> bars[0].open == ticks[0].price && bars.last().close
                == ticks.last().price
            &&& forall|i: int| 0 <= i < bars.len() ==> in_order(#[trigger] bars[i])
        }),
{
    if ticks.len() > 0 {
        let start = clock.bucket(granularity, ticks[0].time as int);
        let opened = agg::tick_agg(ticks[0]).timed(start);
        lemma_bucket_is_a_time(clock, granularity, ticks[0].time);
        lemma_tick_mass(ticks[0]);
        reveal_with_fuel(rs::size_sum, 2);
        assert(ticks.subrange(0, 1).drop_last() =~= Seq::<Tick>::empty());
        assert(ticks.take(1) =~= ticks.subrange(0, 1));
        lemma_bars_from(
            clock,
            granularity,
            ticks,
            0,
            1,
            opened,
            clock.bucket_end(granularity, start),
        );
        lemma_tail_size(ticks, 1);
        assert(rs::tick_aggs(ticks).skip(1) =~= rs::tick_aggs(ticks).drop_first());
    }
}

pub open spec fn ascending_times(bars: Seq<Bar>) -> bool {
    forall|i: int, j: int| 0 <= i < j < bars.len() ==> (#[trigger] bars[i]).time < (#[trigger]
    bars[j]).time
}

/// Whether each item's time is at or after the one before it, and short of the last representable
/// second.
pub open spec fn ordered(items: Seq<Agg>) -> bool {
    &&& forall|i: int| 0 <= i < items.len() ==> 0 <= (#[trigger] items[i]).time < u32::MAX
    &&& forall|i: int, j: int| 0 <= i < j < items.len() ==> (#[trigger] items[i]).time <= (
    #[trigger] items[j]).time
}

proof fn lemma_sub_day_times(
    clock: ClockModel,
    secs: u32,
    run: Agg,
    items: Seq<Agg>,
)
    requires
        secs > 0,
        ordered(items),
        0 <= run.time <= u32::MAX,
    ensures
        ({
            let g = Granularity::SubDay(secs);
            let bars = rs::bars_from(clock, g, run, clock.bucket_end(g, run.time), items);
            &&& bars.len() >= 1
            &&& bars[0].time == run.time
            &&& ascending_times(bars)
        }),
    decreases items.len(),
{
    let g = Granularity::SubDay(secs);
    let end = clock.bucket_end(g, run.time);
    let bars = rs::bars_from(clock, g, run, end, items);
    if items.len() > 0 {
        let item = items[0];
        let rest = items.drop_first();
        assert(ordered(rest)) by {
            assert forall|i: int| 0 <= i < rest.len() implies 0 <= (#[trigger] rest[i]).time
                < u32::MAX by {
                assert(rest[i] == items[i + 1]);
            }
            assert forall|i: int, j: int| 0 <= i < j < rest.len() implies (#[trigger] rest[i]).time
                <= (#[trigger] rest[j]).time by {
                assert(rest[i] == items[i + 1] && rest[j] == items[j + 1]);
            }
        }
        if item.time < end {
            lemma_sub_day_times(clock, secs, run.then_run(item), rest);
        } else {
            let start = clock.bucket(g, item.time);
            sub_day_bucket_holds_its_instant(clock, secs, item.time as u32);
            lemma_sub_day_times(clock, secs, item.timed(start), rest);
            let more = rs::bars_from(
                clock,
                g,
                item.timed(start),
                clock.bucket_end(g, start),
                rest,
            );
            assert(bars == seq![run.bar()] + more);
            assert forall|i: int, j: int| 0 <= i < j < bars.len() implies (#[trigger] bars[i]).time
                < (#[trigger] bars[j]).time by {
                assert(bars[j] == more[j - 1]);
                if i > 0 {
                    assert(bars[i] == more[i - 1]);
                } else if j > 1 {
                    assert(more[0].time < more[j - 1].time);
                }
            }
        }
    }
}

/// Sub-day bars come out in strictly ascending time order, on any clock, from items in order.
pub proof fn sub_day_bars_ascend(clock: ClockModel, secs: u32, items: Seq<Agg>)
    requires
        secs > 0,
        ordered(items),
    ensures
        ascending_times(rs::bars_of(clock, Granularity::SubDay(secs), items)),
{
    if items.len() > 0 {
        let g = Granularity::SubDay(secs);
        let start = clock.bucket(g, items[0].time);
        sub_day_bucket_holds_its_instant(clock, secs, items[0].time as u32);
        let rest = items.drop_first();
        assert(ordered(rest)) by {
            assert forall|i: int| 0 <= i < rest.len() implies 0 <= (#[trigger] rest[i]).time
                < u32::MAX by {
                assert(rest[i] == items[i + 1]);
            }
            assert forall|i: int, j: int| 0 <= i < j < rest.len() implies (#[trigger] rest[i]).time
                <= (#[trigger] rest[j]).time by {
                assert(rest[i] == items[i + 1] && rest[j] == items[j + 1]);
            }
        }
        lemma_sub_day_times(clock, secs, items[0].timed(start), rest);
    }
}

/// Bars that resampling leaves where they are: each starts its own bucket, the next one comes at or
/// after that bucket's end, and each has an average price exactly where it has volume.
pub open spec fn settled(clock: ClockModel, granularity: Granularity, bars: Seq<Bar>) -> bool {
    &&& forall|i: int|
        0 <= i < bars.len() ==> clock.bucket(granularity, (#[trigger] bars[i]).time as int)
            == bars[i].time && (if bars[i].volume != 0 {
            bars[i].vwap is Mass
        } else {
            bars[i].vwap is Undefined
        })
    &&& forall|i: int, j: int|
        0 <= i < j < bars.len() ==> (#[trigger] bars[j]).time >= clock.bucket_end(
            granularity,
            (#[trigger] bars[i]).time as int,
        )
}

proof fn lemma_settled(clock: ClockModel, granularity: Granularity, bars: Seq<Bar>, k: int)
    requires
        settled(clock, granularity, bars),
        0 <= k < bars.len(),
    ensures
        rs::bars_from(
            clock,
            granularity,
            agg::bar_agg(bars[k]),
            clock.bucket_end(granularity, bars[k].time as int),
            rs::bar_aggs(bars).skip(k + 1),
        ) == bars.skip(k),
    decreases bars.len() - k,
{
    let items = rs::bar_aggs(bars);
    let run = agg::bar_agg(bars[k]);
    assert(run.bar() == bars[k]);
    if k + 1 == bars.len() {
        assert(items.skip(k + 1).len() == 0);
        assert(bars.skip(k) =~= seq![bars[k]]);
    } else {
        let rest = items.skip(k + 1);
        let next = bars[k + 1];
        assert(rest[0] == agg::bar_agg(next));
        assert(rest.drop_first() =~= items.skip(k + 2));
        assert(bars[k + 1].time >= clock.bucket_end(granularity, bars[k].time as int));
        assert(agg::bar_agg(next).timed(next.time as int) =~= agg::bar_agg(next));
        lemma_settled(clock, granularity, bars, k + 1);
        assert(bars.skip(k) =~= seq![bars[k]] + bars.skip(k + 1));
    }
}

/// Resampling bars once more to the interval they were made for gives them back unchanged, so
/// stored bars can stand in for the trades they came from.
pub proof fn resampling_again_changes_nothing(
    clock: ClockModel,
    granularity: Granularity,
    bars: Seq<Bar>,
)
    requires
        settled(clock, granularity, bars),
    ensures
        rs::bars_of(clock, granularity, rs::bar_aggs(bars)) == bars,
{
    if bars.len() > 0 {
        let items = rs::bar_aggs(bars);
        assert(items[0] == agg::bar_agg(bars[0]));
        assert(clock.bucket(granularity, bars[0].time as int) == bars[0].time);
        lemma_settled(clock, granularity, bars, 0);
        assert(items[0].timed(bars[0].time as int) =~= items[0]);
        assert(items.drop_first() =~= items.skip(1));
        assert(bars.skip(0) =~= bars);
    } else {
        assert(rs::bar_aggs(bars).len() == 0);
        assert(bars =~= Seq::<Bar>::empty());
    }
}

// ---- runs ------------------------------------------------------------------------------

/// The runs still to come from an open run and the items after it.
pub open spec fn runs_from(
    clock: ClockModel,
    granularity: Granularity,
    run: Agg,
    end: int,
    items: Seq<Agg>,
) -> Seq<Agg>
    decreases items.len(),
{
    if items.len() == 0 {
        seq![run]
    } else if items[0].time < end {
        runs_from(clock, granularity, run.then_run(items[0]), end, items.drop_first())
    } else {
        let start = clock.bucket(granularity, items[0].time);
        seq![run] + runs_from(
            clock,
            granularity,
            items[0].timed(start),
            clock.bucket_end(granularity, start),
            items.drop_first(),
        )
    }
}

/// The runs whose bars resampling gives.
pub open spec fn runs_of(clock: ClockModel, granularity: Granularity, items: Seq<Agg>) -> Seq<
    Agg,
> {
    if items.len() == 0 {
        Seq::empty()
    } else {
        let start = clock.bucket(granularity, items[0].time);
        runs_from(
            clock,
            granularity,
            items[0].timed(start),
            clock.bucket_end(granularity, start),
            items.drop_first(),
        )
    }
}

pub open spec fn bars_of_runs(runs: Seq<Agg>) -> Seq<Bar> {
    runs.map_values(|run: Agg| run.bar())
}

proof fn lemma_bars_are_runs(
    clock: ClockModel,
    granularity: Granularity,
    run: Agg,
    end: int,
    items: Seq<Agg>,
)
    ensures
        rs::bars_from(clock, granularity, run, end, items) == bars_of_runs(
            runs_from(clock, granularity, run, end, items),
        ),
        runs_from(clock, granularity, run, end, items).len() >= 1,
        runs_from(clock, granularity, run, end, items)[0].time == run.time,
    decreases items.len(),
{
    if items.len() == 0 {
        assert(bars_of_runs(seq![run]) =~= seq![run.bar()]);
    } else if items[0].time < end {
        lemma_bars_are_runs(
            clock,
            granularity,
            run.then_run(items[0]),
            end,
            items.drop_first(),
        );
    } else {
        let start = clock.bucket(granularity, items[0].time);
        let stop = clock.bucket_end(granularity, start);
        let opened = items[0].timed(start);
        lemma_bars_are_runs(clock, granularity, opened, stop, items.drop_first());
        let more = runs_from(clock, granularity, opened, stop, items.drop_first());
        assert(bars_of_runs(seq![run] + more) =~= seq![run.bar()] + bars_of_runs(more));
    }
}

/// The bars of resampling are the bars of its runs.
pub proof fn bars_come_from_runs(clock: ClockModel, granularity: Granularity, items: Seq<Agg>)
    ensures
        rs::bars_of(clock, granularity, items) == bars_of_runs(
            runs_of(clock, granularity, items),
        ),
        runs_of(clock, granularity, items).len() == 0 <==> items.len() == 0,
{
    if items.len() > 0 {
        let start = clock.bucket(granularity, items[0].time);
        lemma_bars_are_runs(
            clock,
            granularity,
            items[0].timed(start),
            clock.bucket_end(granularity, start),
            items.drop_first(),
        );
    } else {
        assert(bars_of_runs(Seq::empty()) =~= Seq::empty());
    }
}

/// The first bar is timed at the start of its first item's bucket.
pub proof fn first_bar_starts_its_bucket(
    clock: ClockModel,
    granularity: Granularity,
    items: Seq<Agg>,
)
    requires
        items.len() > 0,
        0 <= clock.bucket(granularity, items[0].time) <= u32::MAX,
    ensures
        rs::bars_of(clock, granularity, items).len() > 0,
        rs::bars_of(clock, granularity, items)[0].time == clock.bucket(granularity, items[0].time),
{
    let start = clock.bucket(granularity, items[0].time);
    lemma_bars_are_runs(
        clock,
        granularity,
        items[0].timed(start),
        clock.bucket_end(granularity, start),
        items.drop_first(),
    );
}

proof fn lemma_total_cons(first: Agg, rest: Seq<Agg>)
    requires
        rest.len() > 0,
    ensures
        agg::total(seq![first] + rest) == first.then_run(agg::total(rest)),
    decreases rest.len(),
{
    let all = seq![first] + rest;
    if rest.len() == 1 {
        assert(all.drop_last() =~= seq![first]);
        assert(agg::total(seq![first]) == first);
    } else {
        lemma_total_cons(first, rest.drop_last());
        assert(all.drop_last() =~= seq![first] + rest.drop_last());
    }
}

proof fn lemma_runs_total(
    clock: ClockModel,
    granularity: Granularity,
    run: Agg,
    end: int,
    items: Seq<Agg>,
)
    ensures
        agg::total(runs_from(clock, granularity, run, end, items)) == if items.len() == 0 {
            run
        } else {
            run.then_run(agg::total(items))
        },
    decreases items.len(),
{
    if items.len() > 0 {
        let rest = items.drop_first();
        assert(items =~= seq![items[0]] + rest);
        if rest.len() > 0 {
            lemma_total_cons(items[0], rest);
        } else {
            assert(items =~= seq![items[0]]);
        }
        if items[0].time < end {
            lemma_runs_total(clock, granularity, run.then_run(items[0]), end, rest);
        } else {
            let start = clock.bucket(granularity, items[0].time);
            let stop = clock.bucket_end(granularity, start);
            let opened = items[0].timed(start);
            lemma_runs_total(clock, granularity, opened, stop, rest);
            lemma_bars_are_runs(clock, granularity, opened, stop, rest);
            lemma_total_cons(run, runs_from(clock, granularity, opened, stop, rest));
        }
    }
}

/// Runs gather every item once and in order: together they amount to what the items amount to, but
/// for the time, which is the first bucket's.
pub proof fn runs_amount_to_their_items(
    clock: ClockModel,
    granularity: Granularity,
    items: Seq<Agg>,
)
    requires
        items.len() > 0,
    ensures
        agg::total(runs_of(clock, granularity, items)) == agg::total(items).timed(
            clock.bucket(granularity, items[0].time),
        ),
{
    let start = clock.bucket(granularity, items[0].time);
    let rest = items.drop_first();
    lemma_runs_total(
        clock,
        granularity,
        items[0].timed(start),
        clock.bucket_end(granularity, start),
        rest,
    );
    assert(items =~= seq![items[0]] + rest);
    if rest.len() > 0 {
        lemma_total_cons(items[0], rest);
    }
}

/// Whether a bar says of a run all there is to say: its totals fit the bar's fields, and a run
/// without volume has no price mass to lose.
pub open spec fn kept_by_bar(run: Agg) -> bool {
    agg::bar_agg(run.bar()) == run
}

pub open spec fn all_kept(runs: Seq<Agg>) -> bool {
    forall|i: int| 0 <= i < runs.len() ==> kept_by_bar(#[trigger] runs[i])
}

pub(crate) proof fn lemma_kept_runs(runs: Seq<Agg>)
    requires
        all_kept(runs),
    ensures
        rs::bar_aggs(bars_of_runs(runs)) == runs,
{
    assert forall|i: int| 0 <= i < runs.len() implies rs::bar_aggs(bars_of_runs(runs))[i]
        == runs[i] by {
        assert(kept_by_bar(runs[i]));
    }
    assert(rs::bar_aggs(bars_of_runs(runs)) =~= runs);
}

/// Summarizing trades and summarizing the bars they resample into give the same lowest and highest
/// price, price mass, volume and trade count.
pub proof fn tick_and_bar_stats_agree(
    clock: ClockModel,
    granularity: Granularity,
    items: Seq<Agg>,
)
    requires
        items.len() > 0,
        all_kept(runs_of(clock, granularity, items)),
    ensures
        ({
            let bars = rs::bars_of(clock, granularity, items);
            let a = crate::stat::figures(items)->0;
            let b = crate::stat::figures(rs::bar_aggs(bars))->0;
            &&& crate::stat::figures(rs::bar_aggs(bars)) is Some
            &&& a.min == b.min
            &&& a.max == b.max
            &&& a.mass == b.mass
            &&& a.volume == b.volume
            &&& a.trades == b.trades
        }),
{
    let runs = runs_of(clock, granularity, items);
    bars_come_from_runs(clock, granularity, items);
    lemma_kept_runs(runs);
    runs_amount_to_their_items(clock, granularity, items);
}

/// What a run of trades amounts to, with what a bar needs of it.
spec fn plain_run(run: Agg, count: int, volume: int) -> bool {
    &&& 0 <= run.time <= u32::MAX
    &&& 0 <= run.low <= run.high <= u32::MAX
    &&& 0 <= run.open <= u32::MAX
    &&& 0 <= run.close <= u32::MAX
    &&& 1 <= run.trades <= count
    &&& 0 <= run.volume <= volume
    &&& 0 <= run.mass <= 0x1_0000_0000 * run.volume
}

/// The total size of the first trades.
spec fn size_up_to(ticks: Seq<Tick>, k: int) -> int {
    rs::size_sum(ticks.subrange(0, k))
}

proof fn lemma_plain_runs(
    clock: ClockModel,
    granularity: Granularity,
    ticks: Seq<Tick>,
    k: int,
    run: Agg,
    end: int,
)
    requires
        rs::counts(granularity),
        ticks.len() <= u64::MAX,
        rs::sizes_fit(ticks),
        0 < k <= ticks.len(),
        forall|i: int| 0 <= i < ticks.len() ==> (#[trigger] ticks[i]).size >= 0,
        plain_run(run, k, size_up_to(ticks, k)),
    ensures
        all_kept(runs_from(clock, granularity, run, end, rs::tick_aggs(ticks).skip(k))),
    decreases ticks.len() - k,
{
    let items = rs::tick_aggs(ticks);
    let rest = items.skip(k);
    let runs = runs_from(clock, granularity, run, end, rest);
    assert(size_up_to(ticks, k) <= i64::MAX);
    assert(kept_by_bar(run)) by {
        assert(agg::bar_agg(run.bar()) =~= run);
    }
    if k == ticks.len() {
        assert(runs =~= seq![run]);
    } else {
        let tick = ticks[k];
        let item = agg::tick_agg(tick);
        assert(rest[0] == item);
        assert(rest.drop_first() =~= items.skip(k + 1));
        assert(tick.size >= 0);
        lemma_plain_tick(tick);
        assert(ticks.subrange(0, k + 1).drop_last() =~= ticks.subrange(0, k));
        assert(size_up_to(ticks, k + 1) == size_up_to(ticks, k) + tick.size);
        let start = clock.bucket(granularity, item.time);
        lemma_bucket_is_a_time(clock, granularity, tick.time);
        if item.time < end {
            lemma_plain_runs(clock, granularity, ticks, k + 1, run.then_run(item), end);
        } else {
            let stop = clock.bucket_end(granularity, start);
            lemma_plain_runs(clock, granularity, ticks, k + 1, item.timed(start), stop);
            let more = runs_from(clock, granularity, item.timed(start), stop, items.skip(k + 1));
            assert(runs == seq![run] + more);
            assert forall|i: int| 0 <= i < runs.len() implies kept_by_bar(#[trigger] runs[i]) by {
                if i > 0 {
                    assert(runs[i] == more[i - 1]);
                }
            }
        }
    }
}

proof fn lemma_plain_tick(tick: Tick)
    requires
        tick.size >= 0,
    ensures
        0 <= agg::tick_agg(tick).mass <= 0x1_0000_0000 * tick.size,
{
    assert(0 <= tick.price * tick.size <= 0x1_0000_0000 * tick.size) by (nonlinear_arith)
        requires
            0 <= tick.price < 0x1_0000_0000,
            0 <= tick.size,
    ;
}

/// Trades that resampling takes, none of a size below zero.
pub open spec fn plain_trades(ticks: Seq<Tick>) -> bool {
    &&& ticks.len() <= u64::MAX
    &&& rs::sizes_fit(ticks)
    &&& forall|i: int| 0 <= i < ticks.len() ==> (#[trigger] ticks[i]).size >= 0
}

/// Bars lose nothing of trades whose sizes are not below zero.
pub proof fn trades_are_kept(clock: ClockModel, granularity: Granularity, ticks: Seq<Tick>)
    requires
        rs::counts(granularity),
        plain_trades(ticks),
    ensures
        all_kept(runs_of(clock, granularity, rs::tick_aggs(ticks))),
{
    if ticks.len() > 0 {
        let start = clock.bucket(granularity, ticks[0].time as int);
        assert(ticks[0].size >= 0);
        lemma_plain_tick(ticks[0]);
        lemma_bucket_is_a_time(clock, granularity, ticks[0].time);
        let none = ticks.subrange(0, 0);
        assert(ticks.subrange(0, 1).drop_last() =~= none);
        assert(rs::size_sum(none) == 0);
        lemma_plain_runs(
            clock,
            granularity,
            ticks,
            1,
            agg::tick_agg(ticks[0]).timed(start),
            clock.bucket_end(granularity, start),
        );
        assert(rs::tick_aggs(ticks).skip(1) =~= rs::tick_aggs(ticks).drop_first());
    }
}

// ---- steady buckets --------------------------------------------------------------------

/// The first item fed opens a run, and there is one from then on.
pub proof fn feed_opens_at_once(clock: ClockModel, granularity: Granularity, items: Seq<Agg>)
    ensures
        feed(clock, granularity, fresh(), items).0.run is None <==> items.len() == 0,
    decreases items.len(),
{
    if items.len() > 0 {
        feed_opens_at_once(clock, granularity, items.drop_last());
    }
}

/// Whether an item lies in the bucket it is gathered into: that of the open run where it joins it,
/// and a later one where it opens another.
pub open spec fn in_step(clock: ClockModel, granularity: Granularity, items: Seq<Agg>, i: int) -> bool {
    let before = feed(clock, granularity, fresh(), items.take(i)).0;
    let start = clock.bucket(granularity, items[i].time);
    &&& 0 <= start <= items[i].time
    &&& before.run matches Some(run) ==> if items[i].time < before.end {
        start == run.time
    } else {
        start > run.time
    }
}

/// Whether every item lies in the bucket it is gathered into. It can fail past a change of the grid
/// that buckets are counted on, such as a session's at midnight, where a bucket from before the
/// change takes an item in.
pub open spec fn steady(clock: ClockModel, granularity: Granularity, items: Seq<Agg>) -> bool {
    forall|i: int| 0 <= i < items.len() ==> #[trigger] in_step(clock, granularity, items, i)
}

/// Sub-day buckets that are counted from the epoch hold every item that they gather.
pub proof fn epoch_buckets_are_steady(clock: ClockModel, secs: u32, items: Seq<Agg>)
    requires
        !(clock is Session),
        secs > 0,
        ordered(items),
    ensures
        steady(clock, Granularity::SubDay(secs), items),
{
    let g = Granularity::SubDay(secs);
    assert forall|i: int| 0 <= i < items.len() implies #[trigger] in_step(clock, g, items, i) by {
        sub_day_bucket_holds_its_instant(clock, secs, items[i].time as u32);
        lemma_epoch_run(clock, secs, items, i);
        if i > 0 {
            let run = feed(clock, g, fresh(), items.take(i)).0.run->0;
            assert(items[i - 1].time <= items[i].time);
            lemma_same_cell(secs as int, run.time, items[i].time);
        }
    }
}

/// Whether the buckets of two instants are counted from the same open, or both from the epoch.
pub open spec fn same_grid(
    session: crate::session::SessionModel,
    secs: u32,
    a: int,
    b: int,
) -> bool {
    &&& session.open_at(a) == session.open_at(b)
    &&& rs::open_floor(session, secs as int, a) is Some <==> rs::open_floor(
        session,
        secs as int,
        b,
    ) is Some
}

/// Whether each item's bucket is counted on the grid of the one before it, or the item comes after
/// that one's bucket has ended.
pub open spec fn days_part(
    session: crate::session::SessionModel,
    secs: u32,
    items: Seq<Agg>,
) -> bool {
    let clock = ClockModel::Session(session);
    let g = Granularity::SubDay(secs);
    forall|i: int|
        0 < i < items.len() ==> {
            ||| same_grid(session, secs, items[i - 1].time, (#[trigger] items[i]).time)
            ||| items[i].time >= clock.bucket_end(g, clock.bucket(g, items[i - 1].time))
        }
}

/// Sub-day buckets that are counted from a session's open hold every item that they gather, where no
/// bucket reaches from one day's items into another's.
pub proof fn session_buckets_are_steady(
    session: crate::session::SessionModel,
    secs: u32,
    items: Seq<Agg>,
)
    requires
        secs > 0,
        ordered(items),
        days_part(session, secs, items),
    ensures
        steady(ClockModel::Session(session), Granularity::SubDay(secs), items),
{
    let clock = ClockModel::Session(session);
    let g = Granularity::SubDay(secs);
    assert forall|i: int| 0 <= i < items.len() implies #[trigger] in_step(clock, g, items, i) by {
        lemma_session_run(session, secs, items, i);
        sub_day_bucket_holds_its_instant(clock, secs, items[i].time as u32);
        if i > 0 {
            lemma_session_step(session, secs, items, i);
        }
    }
}

/// An item is gathered with the one before it exactly where their bucket is the same.
proof fn lemma_session_step(
    session: crate::session::SessionModel,
    secs: u32,
    items: Seq<Agg>,
    i: int,
)
    requires
        secs > 0,
        ordered(items),
        days_part(session, secs, items),
        0 < i < items.len(),
    ensures
        ({
            let clock = ClockModel::Session(session);
            let g = Granularity::SubDay(secs);
            let line = clock.bucket(g, items[i - 1].time);
            let start = clock.bucket(g, items[i].time);
            if items[i].time < clock.bucket_end(g, line) {
                start == line
            } else {
                start > line
            }
        }),
{
    let clock = ClockModel::Session(session);
    let g = Granularity::SubDay(secs);
    let (y, x) = (items[i - 1].time, items[i].time);
    let line = clock.bucket(g, y);
    sub_day_bucket_holds_its_instant(clock, secs, y as u32);
    sub_day_bucket_holds_its_instant(clock, secs, x as u32);
    assert(y <= x);
    if x < clock.bucket_end(g, line) {
        assert(same_grid(session, secs, items[i - 1].time, items[i].time));
        lemma_shared_cell(session, secs, y, x);
    }
}

/// Two instants on one grid lie in the same bucket where the later comes before the bucket's end.
proof fn lemma_shared_cell(session: crate::session::SessionModel, secs: u32, y: int, x: int)
    requires
        secs > 0,
        0 <= y <= x < u32::MAX,
        same_grid(session, secs, y, x),
        ({
            let clock = ClockModel::Session(session);
            let g = Granularity::SubDay(secs);
            x < clock.bucket_end(g, clock.bucket(g, y))
        }),
    ensures
        ({
            let clock = ClockModel::Session(session);
            let g = Granularity::SubDay(secs);
            clock.bucket(g, x) == clock.bucket(g, y)
        }),
{
    let s = secs as int;
    let clock = ClockModel::Session(session);
    let g = Granularity::SubDay(secs);
    let line = clock.bucket(g, y);
    sub_day_bucket_holds_its_instant(clock, secs, y as u32);
    assert(x < line + s);
    if rs::open_floor(session, s, y) is Some {
        let open = session.open_at(y)->0 as int;
        let (qy, qx) = ((y - open) / s, (x - open) / s);
        vstd::arithmetic::div_mod::lemma_fundamental_div_mod(y - open, s);
        vstd::arithmetic::div_mod::lemma_fundamental_div_mod(x - open, s);
        vstd::arithmetic::mul::lemma_mul_is_commutative(s, qy);
        vstd::arithmetic::mul::lemma_mul_is_commutative(s, qx);
        assert(qx == qy) by (nonlinear_arith)
            requires
                s > 0,
                y <= x < open + s * qy + s,
                s * qy <= y - open,
                s * qx <= x - open < s * qx + s,
        ;
    } else {
        epoch_floor_is_idempotent(y, s);
        lemma_same_cell(s, line, x);
    }
}

/// On a session's grid, the open run starts the bucket of the last item.
proof fn lemma_session_run(
    session: crate::session::SessionModel,
    secs: u32,
    items: Seq<Agg>,
    n: int,
)
    requires
        secs > 0,
        ordered(items),
        days_part(session, secs, items),
        0 <= n <= items.len(),
    ensures
        ({
            let clock = ClockModel::Session(session);
            let g = Granularity::SubDay(secs);
            let state = feed(clock, g, fresh(), items.take(n)).0;
            n > 0 ==> {
                &&& state.run is Some
                &&& state.run->0.time == clock.bucket(g, items[n - 1].time)
                &&& state.end == clock.bucket_end(g, state.run->0.time)
            }
        }),
    decreases n,
{
    if n > 0 {
        let clock = ClockModel::Session(session);
        let g = Granularity::SubDay(secs);
        lemma_session_run(session, secs, items, n - 1);
        feed_opens_at_once(clock, g, items.take(n - 1));
        assert(items.take(n).drop_last() =~= items.take(n - 1));
        assert(items.take(n).last() == items[n - 1]);
        if n > 1 {
            lemma_session_step(session, secs, items, n - 1);
        }
    }
}

/// On a sub-day grid counted from the epoch, the open run starts its own bucket, at or before the
/// last item.
proof fn lemma_epoch_run(clock: ClockModel, secs: u32, items: Seq<Agg>, n: int)
    requires
        !(clock is Session),
        secs > 0,
        ordered(items),
        0 <= n <= items.len(),
    ensures
        ({
            let g = Granularity::SubDay(secs);
            let state = feed(clock, g, fresh(), items.take(n)).0;
            n > 0 ==> {
                &&& state.run is Some
                &&& 0 <= state.run->0.time <= items[n - 1].time
                &&& state.run->0.time % secs as int == 0
                &&& state.end == clock.bucket_end(g, state.run->0.time)
            }
        }),
    decreases n,
{
    if n > 0 {
        let g = Granularity::SubDay(secs);
        lemma_epoch_run(clock, secs, items, n - 1);
        feed_opens_at_once(clock, g, items.take(n - 1));
        assert(items.take(n).drop_last() =~= items.take(n - 1));
        assert(items.take(n).last() == items[n - 1]);
        sub_day_bucket_holds_its_instant(clock, secs, items[n - 1].time as u32);
        epoch_floor_is_idempotent(items[n - 1].time, secs as int);
        if n > 1 {
            assert(items[n - 2].time <= items[n - 1].time);
        }
    }
}

/// On a grid, an instant lies in the cell that starts at a line where it comes before the next
/// line, and in a later cell else.
proof fn lemma_same_cell(secs: int, line: int, x: int)
    requires
        secs > 0,
        0 <= line <= x,
        line % secs == 0,
    ensures
        x < line + secs ==> x - x % secs == line,
        x >= line + secs ==> x - x % secs > line,
{
    let (q, qx) = (line / secs, x / secs);
    vstd::arithmetic::div_mod::lemma_fundamental_div_mod(line, secs);
    vstd::arithmetic::div_mod::lemma_fundamental_div_mod(x, secs);
    assert(x < line + secs ==> qx == q) by (nonlinear_arith)
        requires
            secs > 0,
            line == secs * q,
            line <= x,
            secs * qx <= x < secs * qx + secs,
    ;
    assert(x >= line + secs ==> secs * qx > line) by (nonlinear_arith)
        requires
            secs > 0,
            line == secs * q,
            secs * qx <= x < secs * qx + secs,
    ;
}

// ---- resampling in stages --------------------------------------------------------------

/// Two different multiples are at least one step apart.
proof fn lemma_step_apart(f: int, a: int, b: int)
    requires
        f > 0,
        f * a < f * b,
    ensures
        f * a + f <= f * b,
        a < b,
{
    assert(a < b) by (nonlinear_arith)
        requires
            f > 0,
            f * a < f * b,
    ;
    vstd::arithmetic::mul::lemma_mul_inequality(a + 1, b, f);
    vstd::arithmetic::mul::lemma_mul_is_commutative(a + 1, f);
    vstd::arithmetic::mul::lemma_mul_is_commutative(b, f);
    vstd::arithmetic::mul::lemma_mul_is_distributive_add(f, a, 1);
}

/// A multiple of a coarse step, in fine steps.
proof fn lemma_in_fine_steps(f: int, k: int, c: int, q: int)
    requires
        c == f * k,
    ensures
        c * q == f * (k * q),
        c * q + c == f * (k * q + k),
{
    vstd::arithmetic::mul::lemma_mul_is_associative(f, k, q);
    vstd::arithmetic::mul::lemma_mul_is_distributive_add(f, k * q, k);
}

/// What nesting of two grids comes to: a fine bucket lies in the coarse bucket of its start.
proof fn lemma_nested(clock: ClockModel, fine: u32, coarse: u32, time: int)
    requires
        !(clock is Session),
        fine > 0,
        coarse > 0,
        coarse as int % fine as int == 0,
        0 <= time < u32::MAX,
    ensures
        ({
            let (f, c) = (Granularity::SubDay(fine), Granularity::SubDay(coarse));
            let start = clock.bucket(f, time);
            &&& 0 <= start <= time
            &&& clock.bucket(c, start) == clock.bucket(c, time)
            &&& clock.bucket_end(f, start) <= clock.bucket_end(c, clock.bucket(c, time))
        }),
{
    let k = coarse as int / fine as int;
    vstd::arithmetic::div_mod::lemma_fundamental_div_mod(coarse as int, fine as int);
    assert(coarse == fine * k);
    let (qf, rf) = (time / fine as int, time % fine as int);
    let (qc, rc) = (time / coarse as int, time % coarse as int);
    vstd::arithmetic::div_mod::lemma_fundamental_div_mod(time, fine as int);
    vstd::arithmetic::div_mod::lemma_fundamental_div_mod(time, coarse as int);
    let (s, t) = (time - rf, time - rc);
    lemma_in_fine_steps(fine as int, k, coarse as int, qc);
    vstd::arithmetic::mul::lemma_mul_is_distributive_add(fine as int, qf, 1);
    lemma_step_apart(fine as int, k * qc, qf + 1);
    lemma_step_apart(fine as int, qf, k * qc + k);
    assert(s == coarse * qc + (s - t)) by (nonlinear_arith)
        requires
            t == time - rc,
            time == coarse * qc + rc,
    ;
    assert(coarse * qc == qc * coarse) by (nonlinear_arith);
    vstd::arithmetic::div_mod::lemma_fundamental_div_mod_converse(s, coarse as int, qc, s - t);
}

/// Steadiness from an open run on.
spec fn steady_from(
    clock: ClockModel,
    granularity: Granularity,
    open: int,
    end: int,
    items: Seq<Agg>,
) -> bool
    decreases items.len(),
{
    items.len() > 0 ==> {
        let start = clock.bucket(granularity, items[0].time);
        &&& 0 <= start <= items[0].time
        &&& if items[0].time < end {
            start == open && steady_from(clock, granularity, open, end, items.drop_first())
        } else {
            start > open && steady_from(
                clock,
                granularity,
                start,
                clock.bucket_end(granularity, start),
                items.drop_first(),
            )
        }
    }
}

proof fn lemma_steady_from(clock: ClockModel, granularity: Granularity, items: Seq<Agg>, k: int)
    requires
        steady(clock, granularity, items),
        0 < k <= items.len(),
    ensures
        ({
            let state = feed(clock, granularity, fresh(), items.take(k)).0;
            steady_from(clock, granularity, state.run->0.time, state.end, items.skip(k))
        }),
    decreases items.len() - k,
{
    let rest = items.skip(k);
    feed_opens_at_once(clock, granularity, items.take(k));
    if k < items.len() {
        assert(in_step(clock, granularity, items, k));
        assert(rest[0] == items[k]);
        assert(rest.drop_first() =~= items.skip(k + 1));
        assert(items.take(k + 1).drop_last() =~= items.take(k));
        assert(items.take(k + 1).last() == items[k]);
        lemma_steady_from(clock, granularity, items, k + 1);
    }
}

/// Steadiness of a stretch from its second item on.
proof fn lemma_steady_start(clock: ClockModel, granularity: Granularity, items: Seq<Agg>)
    requires
        steady(clock, granularity, items),
        items.len() > 0,
    ensures
        ({
            let start = clock.bucket(granularity, items[0].time);
            &&& 0 <= start <= items[0].time
            &&& steady_from(
                clock,
                granularity,
                start,
                clock.bucket_end(granularity, start),
                items.drop_first(),
            )
        }),
{
    assert(in_step(clock, granularity, items, 0));
    lemma_steady_from(clock, granularity, items, 1);
    let one = items.take(1);
    assert(one.drop_last() =~= Seq::<Agg>::empty());
    assert(one.last() == items[0]);
    reveal_with_fuel(feed, 2);
    assert(items.skip(1) =~= items.drop_first());
}

/// Whether the finer bucket of each item starts in its coarser bucket.
pub open spec fn nested(
    clock: ClockModel,
    fine: Granularity,
    coarse: Granularity,
    items: Seq<Agg>,
) -> bool {
    forall|i: int|
        0 <= i < items.len() ==> clock.bucket(
            coarse,
            clock.bucket(fine, (#[trigger] items[i]).time),
        ) == clock.bucket(coarse, items[i].time)
}

/// The coarse runs over the items, with the open fine run already taken in, are the coarse runs over
/// the fine runs from the open one on.
proof fn lemma_stages(
    clock: ClockModel,
    f: Granularity,
    c: Granularity,
    before: Option<Agg>,
    start: int,
    open: Agg,
    items: Seq<Agg>,
)
    requires
        clock.bucket(c, open.time) == start,
        before is Some ==> open.time < clock.bucket_end(c, start),
        nested(clock, f, c, items),
        steady_from(clock, f, open.time, clock.bucket_end(f, open.time), items),
        steady_from(clock, c, start, clock.bucket_end(c, start), items),
        ({
            let fines = runs_from(clock, f, open, clock.bucket_end(f, open.time), items);
            steady_from(clock, c, start, clock.bucket_end(c, start), fines.drop_first())
        }),
    ensures
        ({
            let end = clock.bucket_end(c, start);
            let fines = runs_from(clock, f, open, clock.bucket_end(f, open.time), items);
            match before {
                Some(p) => runs_from(clock, c, p.then_run(open), end, items) == runs_from(
                    clock,
                    c,
                    p,
                    end,
                    fines,
                ),
                None => runs_from(clock, c, open.timed(start), end, items) == runs_of(
                    clock,
                    c,
                    fines,
                ),
            }
        }),
    decreases items.len(),
{
    let end = clock.bucket_end(c, start);
    let stop = clock.bucket_end(f, open.time);
    let fines = runs_from(clock, f, open, stop, items);
    let taken = match before {
        Some(p) => p.then_run(open),
        None => open.timed(start),
    };
    lemma_bars_are_runs(clock, f, open, stop, items);
    if items.len() == 0 {
        assert(fines =~= seq![open]);
        assert(fines.drop_first() =~= Seq::<Agg>::empty());
        reveal_with_fuel(runs_from, 2);
    } else {
        let x = items[0];
        let rest = items.drop_first();
        assert(nested(clock, f, c, rest)) by {
            assert forall|i: int| 0 <= i < rest.len() implies clock.bucket(
                c,
                clock.bucket(f, (#[trigger] rest[i]).time),
            ) == clock.bucket(c, rest[i].time) by {
                assert(rest[i] == items[i + 1]);
            }
        }
        assert(clock.bucket(c, clock.bucket(f, x.time)) == clock.bucket(c, x.time));
        if x.time < stop {
            lemma_stages(clock, f, c, before, start, open.then_run(x), rest);
            if let Some(p) = before {
                assert(p.then_run(open).then_run(x) =~= p.then_run(open.then_run(x)));
            } else {
                assert(open.timed(start).then_run(x) =~= open.then_run(x).timed(start));
            }
        } else {
            let next = x.timed(clock.bucket(f, x.time));
            let more = runs_from(clock, f, next, clock.bucket_end(f, next.time), rest);
            lemma_bars_are_runs(clock, f, next, clock.bucket_end(f, next.time), rest);
            assert(fines == seq![open] + more);
            assert(fines.drop_first() =~= more);
            assert(fines[0] == open);
            assert(more[0].time == next.time);
            // Over the fine runs, the open one is taken in first.
            let over = match before {
                Some(p) => runs_from(clock, c, p, end, fines),
                None => runs_of(clock, c, fines),
            };
            assert(over == runs_from(clock, c, taken, end, more));
            if x.time < end {
                lemma_stages(clock, f, c, Some(taken), start, next, rest);
                assert(taken.then_run(x) =~= taken.then_run(next));
            } else {
                let opened = clock.bucket(c, x.time);
                lemma_stages(clock, f, c, None, opened, next, rest);
                assert(next.timed(opened) =~= x.timed(opened));
                assert(over == seq![taken] + runs_of(clock, c, more));
            }
        }
    }
}

/// Resampling in stages is resampling at once: bars made of finer bars are the bars made of the
/// items themselves. On any clock and at any two intervals, of items and finer bars that lie in the
/// buckets they are gathered into, where the finer bucket of an item starts in its coarser one and
/// the finer bars say all there is to say of their items.
pub proof fn resampling_in_stages(
    clock: ClockModel,
    fine: Granularity,
    coarse: Granularity,
    items: Seq<Agg>,
)
    requires
        steady(clock, fine, items),
        steady(clock, coarse, items),
        steady(clock, coarse, rs::bar_aggs(rs::bars_of(clock, fine, items))),
        nested(clock, fine, coarse, items),
        all_kept(runs_of(clock, fine, items)),
    ensures
        rs::bars_of(clock, coarse, rs::bar_aggs(rs::bars_of(clock, fine, items))) == rs::bars_of(
            clock,
            coarse,
            items,
        ),
{
    let fines = runs_of(clock, fine, items);
    bars_come_from_runs(clock, fine, items);
    bars_come_from_runs(clock, coarse, items);
    lemma_kept_runs(fines);
    bars_come_from_runs(clock, coarse, fines);
    if items.len() > 0 {
        let x = items[0];
        let rest = items.drop_first();
        assert(nested(clock, fine, coarse, rest)) by {
            assert forall|i: int| 0 <= i < rest.len() implies clock.bucket(
                coarse,
                clock.bucket(fine, (#[trigger] rest[i]).time),
            ) == clock.bucket(coarse, rest[i].time) by {
                assert(rest[i] == items[i + 1]);
            }
        }
        lemma_steady_start(clock, fine, items);
        lemma_steady_start(clock, coarse, items);
        lemma_steady_start(clock, coarse, fines);
        let open = x.timed(clock.bucket(fine, x.time));
        let start = clock.bucket(coarse, x.time);
        lemma_bars_are_runs(clock, fine, open, clock.bucket_end(fine, open.time), rest);
        assert(fines[0].time == open.time);
        lemma_stages(clock, fine, coarse, None, start, open, rest);
        assert(open.timed(start) =~= x.timed(start));
    }
}

/// Sub-day intervals counted from the epoch, of which one divides the other, may always be gone
/// through in stages.
pub proof fn epoch_resampling_in_stages(clock: ClockModel, fine: u32, coarse: u32, items: Seq<Agg>)
    requires
        !(clock is Session),
        fine > 0,
        coarse > 0,
        coarse as int % fine as int == 0,
        ordered(items),
        all_kept(runs_of(clock, Granularity::SubDay(fine), items)),
    ensures
        ({
            let (f, c) = (Granularity::SubDay(fine), Granularity::SubDay(coarse));
            rs::bars_of(clock, c, rs::bar_aggs(rs::bars_of(clock, f, items))) == rs::bars_of(
                clock,
                c,
                items,
            )
        }),
{
    let (f, c) = (Granularity::SubDay(fine), Granularity::SubDay(coarse));
    let bars = rs::bars_of(clock, f, items);
    let fines = rs::bar_aggs(bars);
    epoch_buckets_are_steady(clock, fine, items);
    epoch_buckets_are_steady(clock, coarse, items);
    assert forall|i: int| 0 <= i < items.len() implies clock.bucket(
        c,
        clock.bucket(f, (#[trigger] items[i]).time),
    ) == clock.bucket(c, items[i].time) by {
        lemma_nested(clock, fine, coarse, items[i].time);
    }
    sub_day_bars_ascend(clock, fine, items);
    lemma_epoch_bar_times(clock, fine, items);
    assert(ordered(fines)) by {
        assert forall|i: int, j: int| 0 <= i < j < fines.len() implies (#[trigger] fines[i]).time
            <= (#[trigger] fines[j]).time by {
            assert(fines[i].time == bars[i].time && fines[j].time == bars[j].time);
        }
        assert forall|i: int| 0 <= i < fines.len() implies 0 <= (#[trigger] fines[i]).time
            < u32::MAX by {
            assert(fines[i].time == bars[i].time);
        }
    }
    epoch_buckets_are_steady(clock, coarse, fines);
    resampling_in_stages(clock, f, c, items);
}

/// Trades in ascending order, before the last representable second.
pub open spec fn ascending_trades(ticks: Seq<Tick>) -> bool {
    &&& forall|i: int| 0 <= i < ticks.len() ==> (#[trigger] ticks[i]).time < u32::MAX
    &&& forall|i: int, j: int|
        0 <= i < j < ticks.len() ==> (#[trigger] ticks[i]).time <= (#[trigger] ticks[j]).time
}

/// Trades resampled to a finer interval and the bars then resampled to a coarser one, a multiple of
/// it, are the trades resampled to the coarser one at once.
pub proof fn trades_may_be_resampled_in_stages(
    clock: ClockModel,
    fine: u32,
    coarse: u32,
    ticks: Seq<Tick>,
)
    requires
        !(clock is Session),
        fine > 0,
        coarse > 0,
        coarse as int % fine as int == 0,
        ascending_trades(ticks),
        plain_trades(ticks),
    ensures
        ({
            let (f, c) = (Granularity::SubDay(fine), Granularity::SubDay(coarse));
            let bars = rs::bars_of(clock, f, rs::tick_aggs(ticks));
            rs::bars_of(clock, c, rs::bar_aggs(bars)) == rs::bars_of(
                clock,
                c,
                rs::tick_aggs(ticks),
            )
        }),
{
    trades_are_kept(clock, Granularity::SubDay(fine), ticks);
    lemma_ordered_trades(ticks);
    epoch_resampling_in_stages(clock, fine, coarse, rs::tick_aggs(ticks));
}

pub(crate) proof fn lemma_ordered_trades(ticks: Seq<Tick>)
    requires
        ascending_trades(ticks),
    ensures
        ordered(rs::tick_aggs(ticks)),
{
    let items = rs::tick_aggs(ticks);
    assert forall|i: int| 0 <= i < items.len() implies 0 <= (#[trigger] items[i]).time
        < u32::MAX by {
        assert(items[i].time == ticks[i].time);
    }
    assert forall|i: int, j: int| 0 <= i < j < items.len() implies (#[trigger] items[i]).time <= (
    #[trigger] items[j]).time by {
        assert(items[i].time == ticks[i].time && items[j].time == ticks[j].time);
    }
}

/// Every bar is timed before the last representable second.
proof fn lemma_epoch_bar_times(clock: ClockModel, secs: u32, items: Seq<Agg>)
    requires
        !(clock is Session),
        secs > 0,
        ordered(items),
    ensures
        ({
            let bars = rs::bars_of(clock, Granularity::SubDay(secs), items);
            forall|i: int| 0 <= i < bars.len() ==> (#[trigger] bars[i]).time < u32::MAX
        }),
{
    let g = Granularity::SubDay(secs);
    let n = items.len() as int;
    let bars = rs::bars_of(clock, g, items);
    pushing_gives_the_bars(clock, g, items);
    feed_opens_at_once(clock, g, items);
    sub_day_bars_ascend(clock, secs, items);
    if n > 0 {
        lemma_epoch_run(clock, secs, items, n);
        assert(items.take(n) =~= items);
        assert forall|i: int| 0 <= i < bars.len() implies (#[trigger] bars[i]).time < u32::MAX by {
            if i < bars.len() - 1 {
                assert(bars[i].time < bars[bars.len() - 1].time);
            }
        }
    }
}

/// Whether a bar is one that filling put in: flat at a price, without volume or trades.
pub open spec fn is_flat(bar: Bar, price: u32) -> bool {
    bar == rs::flat_bar(bar.time as int, price)
}

proof fn lemma_flats(
    clock: ClockModel,
    granularity: Granularity,
    price: u32,
    at: int,
    until: int,
    stop: Option<int>,
)
    requires
        0 <= at <= u32::MAX,
        until <= u32::MAX,
        forall|t: int|
            0 <= t <= u32::MAX ==> 0 <= #[trigger] clock.next(granularity, t) <= u32::MAX,
    ensures
        ({
            let bars = rs::flats(clock, granularity, price, at, until, stop);
            &&& ascending_times(bars)
            &&& forall|i: int|
                0 <= i < bars.len() ==> is_flat(#[trigger] bars[i], price) && at <= bars[i].time
                    < until && (stop is Some ==> bars[i].time < stop->0)
        }),
    decreases
            if at < until {
                until - at
            } else {
                0
            },
{
    let bars = rs::flats(clock, granularity, price, at, until, stop);
    if at < until && (stop is Some ==> at < stop->0) {
        let next = clock.next(granularity, at);
        let more = if next > at {
            rs::flats(clock, granularity, price, next, until, stop)
        } else {
            Seq::empty()
        };
        if next > at {
            lemma_flats(clock, granularity, price, next, until, stop);
        }
        assert(bars == seq![rs::flat_bar(at, price)] + more);
        assert forall|i: int| 0 <= i < bars.len() implies is_flat(#[trigger] bars[i], price) && at
            <= bars[i].time < until && (stop is Some ==> bars[i].time < stop->0) by {
            if i > 0 {
                assert(bars[i] == more[i - 1]);
            }
        }
        assert forall|i: int, j: int| 0 <= i < j < bars.len() implies (#[trigger] bars[i]).time < (
        #[trigger] bars[j]).time by {
            assert(bars[j] == more[j - 1]);
            if i > 0 {
                assert(bars[i] == more[i - 1]);
            }
        }
    }
}

proof fn lemma_next_is_a_time(clock: ClockModel, granularity: Granularity)
    ensures
        forall|t: int|
            0 <= t <= u32::MAX ==> 0 <= #[trigger] clock.next(granularity, t) <= u32::MAX,
{
}

/// Filling puts in only flat bars at the previous close: without volume or trades, in ascending
/// order, at or after the interval that follows the previous bar, before the next bar, and before
/// the session's close where the clock has one.
pub proof fn fill_only_bridges_the_gap(
    clock: ClockModel,
    granularity: Granularity,
    prev: Bar,
    bar: Bar,
)
    ensures
        ({
            let bars = rs::gap(clock, granularity, prev, bar);
            let stop = clock.fill_end(granularity, prev.time as int);
            &&& ascending_times(bars)
            &&& forall|i: int|
                0 <= i < bars.len() ==> is_flat(#[trigger] bars[i], prev.close) && clock.next(
                    granularity,
                    prev.time as int,
                ) <= bars[i].time < bar.time && (stop is Some ==> bars[i].time < stop->0)
        }),
{
    lemma_next_is_a_time(clock, granularity);
    assert(0 <= clock.next(granularity, prev.time as int) <= u32::MAX);
    lemma_flats(
        clock,
        granularity,
        prev.close,
        clock.next(granularity, prev.time as int),
        bar.time as int,
        clock.fill_end(granularity, prev.time as int),
    );
}

/// Filling steps by the interval: the first flat bar comes one interval after the previous bar, each
/// one interval after the one before, and there is no room for another: one more step would reach
/// the next bar or the session's close, or the calendar would not move on.
pub proof fn filling_steps_by_the_interval(
    clock: ClockModel,
    granularity: Granularity,
    prev: Bar,
    bar: Bar,
)
    ensures
        ({
            let flats = rs::gap(clock, granularity, prev, bar);
            let stop = clock.fill_end(granularity, prev.time as int);
            let last = if flats.len() > 0 {
                flats.last().time
            } else {
                prev.time
            };
            let next = clock.next(granularity, last as int);
            &&& flats.len() > 0 ==> flats[0].time == clock.next(granularity, prev.time as int)
            &&& forall|i: int|
                0 < i < flats.len() ==> (#[trigger] flats[i]).time == clock.next(
                    granularity,
                    flats[i - 1].time as int,
                )
            &&& next >= bar.time || (stop is Some && next >= stop->0) || (flats.len() > 0 && next
                <= last)
        }),
{
    lemma_next_is_a_time(clock, granularity);
    let at = clock.next(granularity, prev.time as int);
    lemma_flat_steps(
        clock,
        granularity,
        prev.close,
        at,
        bar.time as int,
        clock.fill_end(granularity, prev.time as int),
    );
}

proof fn lemma_flat_steps(
    clock: ClockModel,
    granularity: Granularity,
    price: u32,
    at: int,
    until: int,
    stop: Option<int>,
)
    requires
        0 <= at <= u32::MAX,
        until <= u32::MAX,
        forall|t: int|
            0 <= t <= u32::MAX ==> 0 <= #[trigger] clock.next(granularity, t) <= u32::MAX,
    ensures
        ({
            let flats = rs::flats(clock, granularity, price, at, until, stop);
            &&& flats.len() > 0 ==> flats[0].time == at
            &&& forall|i: int|
                0 < i < flats.len() ==> (#[trigger] flats[i]).time == clock.next(
                    granularity,
                    flats[i - 1].time as int,
                )
            &&& if flats.len() > 0 {
                let last = flats.last().time as int;
                let next = clock.next(granularity, last);
                next >= until || (stop is Some && next >= stop->0) || next <= last
            } else {
                at >= until || (stop is Some && at >= stop->0)
            }
        }),
    decreases
            if at < until {
                until - at
            } else {
                0
            },
{
    let flats = rs::flats(clock, granularity, price, at, until, stop);
    if at < until && (stop is Some ==> at < stop->0) {
        let next = clock.next(granularity, at);
        let more = if next > at {
            rs::flats(clock, granularity, price, next, until, stop)
        } else {
            Seq::empty()
        };
        if next > at {
            lemma_flat_steps(clock, granularity, price, next, until, stop);
        }
        assert(flats == seq![rs::flat_bar(at, price)] + more);
        assert(flats[0].time == at);
        assert forall|i: int| 0 < i < flats.len() implies (#[trigger] flats[i]).time == clock.next(
            granularity,
            flats[i - 1].time as int,
        ) by {
            assert(flats[i] == more[i - 1]);
            if i > 1 {
                assert(flats[i - 1] == more[i - 2]);
            }
        }
        if more.len() > 0 {
            assert(flats.last() == more.last());
        } else {
            assert(flats.last() == flats[0]);
        }
    }
}

/// Filling leaves the traded bars as they are and in order: each stands behind what filling makes of
/// the bars up to it, and nothing behind it changes that.
pub proof fn traded_bars_stay(clock: ClockModel, granularity: Granularity, bars: Seq<Bar>, k: int)
    requires
        0 <= k < bars.len(),
    ensures
        ({
            let up_to = rs::with_gaps(clock, granularity, bars.take(k + 1));
            let all = rs::with_gaps(clock, granularity, bars);
            &&& 0 < up_to.len() <= all.len()
            &&& all.take(up_to.len() as int) == up_to
            &&& up_to.last() == bars[k]
        }),
    decreases bars.len(),
{
    let all = rs::with_gaps(clock, granularity, bars);
    if k + 1 == bars.len() {
        assert(bars.take(k + 1) =~= bars);
        assert(all.take(all.len() as int) =~= all);
    } else {
        let init = bars.drop_last();
        traded_bars_stay(clock, granularity, init, k);
        assert(init.take(k + 1) =~= bars.take(k + 1));
        let up_to = rs::with_gaps(clock, granularity, bars.take(k + 1));
        let before = rs::with_gaps(clock, granularity, init);
        assert(all.take(up_to.len() as int) =~= before.take(up_to.len() as int));
    }
}

/// Filling adds neither volume nor trades.
pub proof fn fill_adds_nothing_traded(
    clock: ClockModel,
    granularity: Granularity,
    bars: Seq<Bar>,
)
    ensures
        volume_sum(rs::with_gaps(clock, granularity, bars)) == volume_sum(bars),
        trade_sum(rs::with_gaps(clock, granularity, bars)) == trade_sum(bars),
    decreases bars.len(),
{
    if bars.len() > 1 {
        let n = bars.len() as int;
        let init = bars.drop_last();
        fill_adds_nothing_traded(clock, granularity, init);
        let before = rs::with_gaps(clock, granularity, init);
        let between = rs::gap(clock, granularity, bars[n - 2], bars.last());
        fill_only_bridges_the_gap(clock, granularity, bars[n - 2], bars.last());
        lemma_sums_append(before, between);
        lemma_sums_append(before + between, seq![bars.last()]);
        lemma_sums_append(init, seq![bars.last()]);
        lemma_untraded(between, bars[n - 2].close);
        assert(init + seq![bars.last()] =~= bars);
    }
}

proof fn lemma_untraded(bars: Seq<Bar>, price: u32)
    requires
        forall|i: int| 0 <= i < bars.len() ==> is_flat(#[trigger] bars[i], price),
    ensures
        volume_sum(bars) == 0,
        trade_sum(bars) == 0,
    decreases bars.len(),
{
    if bars.len() > 0 {
        assert(is_flat(bars[0], price));
        let rest = bars.drop_first();
        assert forall|i: int| 0 <= i < rest.len() implies is_flat(#[trigger] rest[i], price) by {
            assert(rest[i] == bars[i + 1]);
        }
        lemma_untraded(rest, price);
    }
}

proof fn lemma_sums_append(a: Seq<Bar>, b: Seq<Bar>)
    ensures
        volume_sum(a + b) == volume_sum(a) + volume_sum(b),
        trade_sum(a + b) == trade_sum(a) + trade_sum(b),
    decreases a.len(),
{
    if a.len() == 0 {
        assert(a + b =~= b);
    } else {
        lemma_sums_append(a.drop_first(), b);
        assert((a + b).drop_first() =~= a.drop_first() + b);
    }
}

} // verus!
