//! A filled series beside the bare one.
use vstd::prelude::*;

use crate::aggregate as agg;
use crate::aggregate::Agg;
use crate::interval::Granularity;
use crate::model::{Bar, Tick};
use crate::resample as rs;
use crate::resample::ClockModel;
use crate::resample_laws as laws;

verus! {

/// Whether bars stand on a grid of so many seconds, ascending, with a step left after the last, and
/// each has traded.
spec fn on_grid(secs: u32, bars: Seq<Bar>) -> bool {
    &&& laws::ascending_times(bars)
    &&& forall|i: int|
        0 <= i < bars.len() ==> (#[trigger] bars[i]).time as int % secs as int == 0 && bars[i].time
            + secs <= u32::MAX && bars[i].trades > 0
}

/// Whether each bar comes one interval after the one before it.
pub open spec fn steps_by(secs: u32, bars: Seq<Bar>) -> bool {
    forall|i: int| 0 < i < bars.len() ==> (#[trigger] bars[i]).time == bars[i - 1].time + secs
}

/// Whether each bar without trades is flat at the close of the bar before it.
pub open spec fn untraded_are_flat(bars: Seq<Bar>) -> bool {
    forall|i: int|
        0 <= i < bars.len() && (#[trigger] bars[i]).trades == 0 ==> i > 0 && bars[i]
            == rs::flat_bar(bars[i].time as int, bars[i - 1].close)
}

/// The bars that have traded.
pub open spec fn traded(bars: Seq<Bar>) -> Seq<Bar> {
    bars.filter(|bar: Bar| bar.trades > 0)
}

proof fn lemma_flat_times(secs: u32, prev: Bar, bar: Bar, i: int)
    requires
        secs > 0,
        prev.time < bar.time,
        bar.time + secs <= u32::MAX,
        0 <= i < rs::gap(ClockModel::Utc, Granularity::SubDay(secs), prev, bar).len(),
    ensures
        rs::gap(ClockModel::Utc, Granularity::SubDay(secs), prev, bar)[i].time == prev.time + (i
            + 1) * secs,
    decreases i,
{
    let (clock, g) = (ClockModel::Utc, Granularity::SubDay(secs));
    let flats = rs::gap(clock, g, prev, bar);
    laws::filling_steps_by_the_interval(clock, g, prev, bar);
    laws::fill_only_bridges_the_gap(clock, g, prev, bar);
    if i > 0 {
        lemma_flat_times(secs, prev, bar, i - 1);
        assert(flats[i].time == clock.next(g, flats[i - 1].time as int));
        assert(laws::is_flat(flats[i - 1], prev.close) && flats[i - 1].time < bar.time);
        assert(i * secs + secs == (i + 1) * secs) by (nonlinear_arith);
    } else {
        assert(flats[0].time == clock.next(g, prev.time as int));
        assert((0 + 1) * secs == secs) by (nonlinear_arith);
    }
}

/// The flat bars between two bars on a grid close the gap: one interval after another, up to one
/// before the second.
proof fn lemma_gap_closes(secs: u32, prev: Bar, bar: Bar)
    requires
        secs > 0,
        prev.time < bar.time,
        bar.time + secs <= u32::MAX,
        prev.time as int % secs as int == 0,
        bar.time as int % secs as int == 0,
    ensures
        ({
            let flats = rs::gap(ClockModel::Utc, Granularity::SubDay(secs), prev, bar);
            let last = if flats.len() > 0 {
                flats.last().time
            } else {
                prev.time
            };
            &&& bar.time == last + secs
            &&& forall|i: int|
                0 <= i < flats.len() ==> laws::is_flat(#[trigger] flats[i], prev.close)
                    && flats[i].time == secs + if i > 0 {
                    flats[i - 1].time
                } else {
                    prev.time
                }
        }),
{
    let (clock, g) = (ClockModel::Utc, Granularity::SubDay(secs));
    let flats = rs::gap(clock, g, prev, bar);
    let n = flats.len() as int;
    let s = secs as int;
    laws::filling_steps_by_the_interval(clock, g, prev, bar);
    laws::fill_only_bridges_the_gap(clock, g, prev, bar);
    assert forall|i: int| 0 <= i < n implies laws::is_flat(#[trigger] flats[i], prev.close)
        && flats[i].time == secs + if i > 0 {
        flats[i - 1].time
    } else {
        prev.time
    } by {
        lemma_flat_times(secs, prev, bar, i);
        if i > 0 {
            lemma_flat_times(secs, prev, bar, i - 1);
        }
        assert((i + 1) * s == i * s + s) by (nonlinear_arith);
        assert(i == 0 ==> i * s == 0);
    }
    // The last of them, or the first bar, is a whole number of intervals before the second bar.
    let last: int = prev.time + n * s;
    if n > 0 {
        lemma_flat_times(secs, prev, bar, n - 1);
        assert(flats[n - 1].time == last);
        assert(laws::is_flat(flats[n - 1], prev.close) && flats[n - 1].time < bar.time);
    } else {
        assert(n * s == 0);
    }
    assert(last < bar.time);
    assert(clock.next(g, last) == last + s);
    assert(last + s >= bar.time);
    let (p, q) = (prev.time as int / s, bar.time as int / s);
    vstd::arithmetic::div_mod::lemma_fundamental_div_mod(prev.time as int, s);
    vstd::arithmetic::div_mod::lemma_fundamental_div_mod(bar.time as int, s);
    let k = q - p - n;
    assert(s * k == bar.time - last) by (nonlinear_arith)
        requires
            prev.time == s * p,
            bar.time == s * q,
            last == prev.time + n * s,
            k == q - p - n,
    ;
    assert(k == 1) by (nonlinear_arith)
        requires
            s > 0,
            0 < s * k <= s,
    ;
}

proof fn lemma_filled(secs: u32, bars: Seq<Bar>)
    requires
        secs > 0,
        on_grid(secs, bars),
    ensures
        ({
            let filled = rs::with_gaps(ClockModel::Utc, Granularity::SubDay(secs), bars);
            &&& steps_by(secs, filled)
            &&& untraded_are_flat(filled)
            &&& traded(filled) == bars
            &&& bars.len() > 0 ==> filled.len() > 0 && filled[0] == bars[0] && filled.last()
                == bars.last()
        }),
    decreases bars.len(),
{
    reveal(Seq::filter);
    reveal_with_fuel(Seq::filter, 3);
    let (clock, g) = (ClockModel::Utc, Granularity::SubDay(secs));
    let filled = rs::with_gaps(clock, g, bars);
    if bars.len() <= 1 {
        if bars.len() == 1 {
            assert(bars[0].trades > 0);
            assert(bars.drop_last() =~= Seq::<Bar>::empty());
            assert(traded(bars) =~= bars);
        } else {
            assert(traded(bars) =~= bars);
        }
    } else {
        let n = bars.len() - 1;
        let init = bars.drop_last();
        let (prev, last) = (bars[n - 1], bars[n]);
        assert(on_grid(secs, init)) by {
            assert forall|i: int| 0 <= i < init.len() implies (#[trigger] init[i]).time as int
                % secs as int == 0 && init[i].time + secs <= u32::MAX && init[i].trades > 0 by {
                assert(init[i] == bars[i]);
            }
            assert forall|i: int, j: int| 0 <= i < j < init.len() implies (#[trigger] init[i]).time
                < (#[trigger] init[j]).time by {
                assert(init[i] == bars[i] && init[j] == bars[j]);
            }
        }
        lemma_filled(secs, init);
        assert(prev.time < last.time);
        lemma_gap_closes(secs, prev, last);
        let before = rs::with_gaps(clock, g, init);
        let flats = rs::gap(clock, g, prev, last);
        assert(filled == before + flats + seq![last]);
        assert(before.last() == prev);
        lemma_joined(secs, before, flats, last);
        lemma_traded_parts(before, flats, last, prev.close);
        assert(init.push(last) =~= bars);
    }
}

/// A series that steps by an interval, with flat bars that close a gap and the bar behind it.
proof fn lemma_joined(secs: u32, before: Seq<Bar>, flats: Seq<Bar>, last: Bar)
    requires
        before.len() > 0,
        steps_by(secs, before),
        untraded_are_flat(before),
        last.trades > 0,
        forall|i: int|
            0 <= i < flats.len() ==> laws::is_flat(#[trigger] flats[i], before.last().close)
                && flats[i].time == secs + if i > 0 {
                flats[i - 1].time
            } else {
                before.last().time
            },
        last.time == secs + if flats.len() > 0 {
            flats.last().time
        } else {
            before.last().time
        },
    ensures
        steps_by(secs, before + flats + seq![last]),
        untraded_are_flat(before + flats + seq![last]),
{
    let all = before + flats + seq![last];
    let m = before.len() as int;
    assert(all[m - 1] == before.last());
    assert forall|i: int| 0 < i < all.len() implies (#[trigger] all[i]).time == all[i - 1].time
        + secs by {
        if i < m {
            assert(all[i] == before[i] && all[i - 1] == before[i - 1]);
        } else if i < m + flats.len() {
            assert(all[i] == flats[i - m]);
            if i > m {
                assert(all[i - 1] == flats[i - 1 - m]);
            }
        } else if flats.len() > 0 {
            assert(all[i - 1] == flats[i - 1 - m]);
        }
    }
    assert forall|i: int| 0 <= i < all.len() && (#[trigger] all[i]).trades == 0 implies i > 0
        && all[i] == rs::flat_bar(all[i].time as int, all[i - 1].close) by {
        if i < m {
            assert(all[i] == before[i]);
            assert(i > 0);
            assert(all[i - 1] == before[i - 1]);
        } else if i < m + flats.len() {
            assert(all[i] == flats[i - m]);
            if i > m {
                assert(all[i - 1] == flats[i - 1 - m]);
                assert(laws::is_flat(flats[i - 1 - m], before.last().close));
            }
        }
    }
}

proof fn lemma_traded_parts(before: Seq<Bar>, flats: Seq<Bar>, last: Bar, price: u32)
    requires
        last.trades > 0,
        forall|i: int| 0 <= i < flats.len() ==> laws::is_flat(#[trigger] flats[i], price),
    ensures
        traded(before + flats + seq![last]) == traded(before).push(last),
{
    reveal(Seq::filter);
    let all = before + flats + seq![last];
    assert(all.drop_last() =~= before + flats);
    assert(all.last() == last);
    lemma_flats_are_untraded(before, flats, price);
}

proof fn lemma_flats_are_untraded(before: Seq<Bar>, flats: Seq<Bar>, price: u32)
    requires
        forall|i: int| 0 <= i < flats.len() ==> laws::is_flat(#[trigger] flats[i], price),
    ensures
        traded(before + flats) == traded(before),
    decreases flats.len(),
{
    reveal(Seq::filter);
    if flats.len() == 0 {
        assert(before + flats =~= before);
    } else {
        let init = flats.drop_last();
        assert forall|i: int| 0 <= i < init.len() implies laws::is_flat(
            #[trigger] init[i],
            price,
        ) by {
            assert(laws::is_flat(flats[i], price));
        }
        lemma_flats_are_untraded(before, init, price);
        assert((before + flats).drop_last() =~= before + init);
        assert(laws::is_flat(flats[flats.len() - 1], price));
        assert((before + flats).last().trades == 0);
    }
}

/// The bars of trades counted from the epoch start at whole intervals, no later than their trades,
/// and have traded.
proof fn lemma_bars_on_grid(
    secs: u32,
    ticks: Seq<Tick>,
    k: int,
    run: Agg,
)
    requires
        secs > 0,
        0 < k <= ticks.len() <= u64::MAX,
        forall|i: int| 0 <= i < ticks.len() ==> (#[trigger] ticks[i]).time + secs < u32::MAX,
        0 <= run.time,
        run.time % secs as int == 0,
        run.time + secs <= u32::MAX,
        1 <= run.trades <= k,
    ensures
        ({
            let g = Granularity::SubDay(secs);
            let bars = rs::bars_from(
                ClockModel::Utc,
                g,
                run,
                ClockModel::Utc.bucket_end(g, run.time),
                rs::tick_aggs(ticks).skip(k),
            );
            forall|i: int|
                0 <= i < bars.len() ==> (#[trigger] bars[i]).time as int % secs as int == 0
                    && bars[i].time + secs <= u32::MAX && bars[i].trades > 0
        }),
    decreases ticks.len() - k,
{
    let (clock, g) = (ClockModel::Utc, Granularity::SubDay(secs));
    let items = rs::tick_aggs(ticks);
    let rest = items.skip(k);
    let end = clock.bucket_end(g, run.time);
    let bars = rs::bars_from(clock, g, run, end, rest);
    if k < ticks.len() {
        let item = agg::tick_agg(ticks[k]);
        assert(rest[0] == item);
        assert(rest.drop_first() =~= items.skip(k + 1));
        if item.time < end {
            lemma_bars_on_grid(secs, ticks, k + 1, run.then_run(item));
        } else {
            let start = clock.bucket(g, item.time);
            laws::epoch_floor_is_idempotent(item.time, secs as int);
            laws::sub_day_bucket_holds_its_instant(clock, secs, ticks[k].time);
            lemma_whole(item.time, secs as int);
            lemma_bars_on_grid(secs, ticks, k + 1, item.timed(start));
            let more = rs::bars_from(
                clock,
                g,
                item.timed(start),
                clock.bucket_end(g, start),
                items.skip(k + 1),
            );
            assert(bars == seq![run.bar()] + more);
            assert forall|i: int| 0 <= i < bars.len() implies (#[trigger] bars[i]).time as int
                % secs as int == 0 && bars[i].time + secs <= u32::MAX && bars[i].trades > 0 by {
                if i > 0 {
                    assert(bars[i] == more[i - 1]);
                }
            }
        }
    }
}

proof fn lemma_whole(time: int, secs: int)
    requires
        secs > 0,
        time >= 0,
    ensures
        0 <= time - time % secs <= time,
        (time - time % secs) % secs == 0,
{
    vstd::arithmetic::div_mod::lemma_fundamental_div_mod(time, secs);
    vstd::arithmetic::div_mod::lemma_mod_bound(time, secs);
    let q = time / secs;
    assert(time - time % secs == secs * q);
    vstd::arithmetic::mul::lemma_mul_is_commutative(secs, q);
    vstd::arithmetic::div_mod::lemma_mod_multiples_basic(q, secs);
    assert(time % secs <= time) by {
        assert(q >= 0) by (nonlinear_arith)
            requires
                q == time / secs,
                time >= 0,
                secs > 0,
        ;
        assert(secs * q >= 0) by (nonlinear_arith)
            requires
                q >= 0,
                secs > 0,
        ;
    }
}

/// A filled series steps by exactly the interval from the first bar of the bare one to its last; its
/// bars with trades are the bare ones, in order and unchanged; and every other one is flat, without
/// volume, at the close of the bar before it. For trades in order, at an interval below a day counted
/// from the epoch.
pub proof fn a_filled_series_is_the_bare_one_with_flat_bars(secs: u32, ticks: Seq<Tick>)
    requires
        secs > 0,
        ticks.len() <= u64::MAX,
        laws::ascending_trades(ticks),
        forall|i: int| 0 <= i < ticks.len() ==> (#[trigger] ticks[i]).time + secs < u32::MAX,
    ensures
        ({
            let (clock, g) = (ClockModel::Utc, Granularity::SubDay(secs));
            let made = rs::bars_of(clock, g, rs::tick_aggs(ticks));
            let bare = rs::delivered(clock, g, false, made);
            let filled = rs::delivered(clock, g, true, made);
            &&& steps_by(secs, filled)
            &&& traded(filled) == bare
            &&& untraded_are_flat(filled)
            &&& bare.len() > 0 ==> filled.len() > 0 && filled[0] == bare[0] && filled.last()
                == bare.last()
        }),
{
    let (clock, g) = (ClockModel::Utc, Granularity::SubDay(secs));
    let items = rs::tick_aggs(ticks);
    let bars = rs::bars_of(clock, g, items);
    laws::lemma_ordered_trades(ticks);
    laws::sub_day_bars_ascend(clock, secs, items);
    if ticks.len() > 0 {
        let first = agg::tick_agg(ticks[0]);
        assert(items[0] == first);
        let start = clock.bucket(g, first.time);
        assert(ticks[0].time + secs < u32::MAX);
        lemma_whole(first.time, secs as int);
        lemma_bars_on_grid(secs, ticks, 1, first.timed(start));
        assert(items.skip(1) =~= items.drop_first());
    }
    lemma_filled(secs, bars);
}

} // verus!
