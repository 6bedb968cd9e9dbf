//! What a run of trades or bars amounts to, in terms of the trades and bars themselves.
use vstd::prelude::*;

use crate::aggregate::Agg;
use crate::model::{Bar, Tick, Vwap};

verus! {

/// The sizes of trades, added up.
pub open spec fn size_total(ticks: Seq<Tick>) -> int {
    ticks.fold_left(0int, |sum: int, tick: Tick| sum + tick.size)
}

/// What trades came to: each price times its size, added up.
pub open spec fn turnover(ticks: Seq<Tick>) -> int {
    ticks.fold_left(0int, |sum: int, tick: Tick| sum + tick.price * tick.size)
}

/// What the trades of a bar came to, as far as it can tell: its average price times its volume.
pub open spec fn bar_turnover(bar: Bar) -> int {
    match bar.vwap {
        Vwap::Mass(mass) => mass as int,
        Vwap::Price(price) => bar.volume * price,
        Vwap::Undefined => 0,
    }
}

/// The volumes of bars, added up.
pub open spec fn bars_volume(bars: Seq<Bar>) -> int {
    bars.fold_left(0int, |sum: int, bar: Bar| sum + bar.volume)
}

pub open spec fn bars_turnover(bars: Seq<Bar>) -> int {
    bars.fold_left(0int, |sum: int, bar: Bar| sum + bar_turnover(bar))
}

pub open spec fn bars_trades(bars: Seq<Bar>) -> int {
    bars.fold_left(0int, |sum: int, bar: Bar| sum + bar.trades)
}

/// Whether a run is what trades amount to: it opens at the first price and closes at the last, its
/// high and low are the highest and the lowest of the prices, and its totals are theirs.
pub open spec fn sums_up(run: Agg, ticks: Seq<Tick>) -> bool {
    &&& run.time == ticks[0].time
    &&& run.open == ticks[0].price
    &&& run.close == ticks[ticks.len() - 1].price
    &&& forall|i: int| 0 <= i < ticks.len() ==> run.low <= (#[trigger] ticks[i]).price <= run.high
    &&& exists|i: int| 0 <= i < ticks.len() && run.low == (#[trigger] ticks[i]).price
    &&& exists|i: int| 0 <= i < ticks.len() && run.high == (#[trigger] ticks[i]).price
    &&& run.volume == size_total(ticks)
    &&& run.mass == turnover(ticks)
    &&& run.trades == ticks.len()
}

/// A run of trades opens at the first price and closes at the last; its high and low are the highest
/// and the lowest price in it; its volume, mass and trades are the totals.
pub proof fn trades_sum_up(ticks: Seq<Tick>)
    requires
        ticks.len() > 0,
    ensures
        sums_up(crate::aggregate::total(crate::resample::tick_aggs(ticks)), ticks),
    decreases ticks.len(),
{
    let items = crate::resample::tick_aggs(ticks);
    let n = ticks.len() - 1;
    reveal_with_fuel(Seq::fold_left, 2);
    let run = crate::aggregate::total(items);
    assert(items[n] == crate::aggregate::tick_agg(ticks[n]));
    assert(ticks[n] == ticks.last());
    if n > 0 {
        let init = ticks.drop_last();
        trades_sum_up(init);
        assert(items.drop_last() =~= crate::resample::tick_aggs(init));
        let before = crate::aggregate::total(items.drop_last());
        assert(init[0] == ticks[0]);
        assert forall|i: int| 0 <= i < ticks.len() implies run.low <= (#[trigger] ticks[i]).price
            <= run.high by {
            if i < n {
                assert(init[i] == ticks[i]);
            }
        }
        let low = choose|i: int| 0 <= i < init.len() && before.low == (#[trigger] init[i]).price;
        let high = choose|i: int| 0 <= i < init.len() && before.high == (#[trigger] init[i]).price;
        assert(init[low] == ticks[low] && init[high] == ticks[high]);
    } else {
        assert(ticks.drop_last() =~= Seq::<Tick>::empty());
        assert(run.low == ticks[0].price && run.high == ticks[0].price);
    }
}

/// Whether a run is what bars amount to: it opens with the first and closes with the last, its high
/// and low are the highest high and the lowest low, and its totals are theirs.
pub open spec fn sums_up_bars(run: Agg, bars: Seq<Bar>) -> bool {
    &&& run.time == bars[0].time
    &&& run.open == bars[0].open
    &&& run.close == bars[bars.len() - 1].close
    &&& forall|i: int|
        0 <= i < bars.len() ==> run.low <= (#[trigger] bars[i]).low && bars[i].high <= run.high
    &&& exists|i: int| 0 <= i < bars.len() && run.low == (#[trigger] bars[i]).low
    &&& exists|i: int| 0 <= i < bars.len() && run.high == (#[trigger] bars[i]).high
    &&& run.volume == bars_volume(bars)
    &&& run.mass == bars_turnover(bars)
    &&& run.trades == bars_trades(bars)
}

/// A run of bars opens with the first and closes with the last; its high and low are the highest high
/// and the lowest low in it; its volume, mass and trades are the totals.
pub proof fn bars_sum_up(bars: Seq<Bar>)
    requires
        bars.len() > 0,
    ensures
        sums_up_bars(crate::aggregate::total(crate::resample::bar_aggs(bars)), bars),
    decreases bars.len(),
{
    let items = crate::resample::bar_aggs(bars);
    let n = bars.len() - 1;
    reveal_with_fuel(Seq::fold_left, 2);
    let run = crate::aggregate::total(items);
    assert(items[n] == crate::aggregate::bar_agg(bars[n]));
    assert(bars[n] == bars.last());
    assert(bars[n].vwap matches Vwap::Price(price) ==> price * bars[n].volume == bars[n].volume
        * price) by (nonlinear_arith);
    if n > 0 {
        let init = bars.drop_last();
        bars_sum_up(init);
        assert(items.drop_last() =~= crate::resample::bar_aggs(init));
        let before = crate::aggregate::total(items.drop_last());
        assert(init[0] == bars[0]);
        assert forall|i: int| 0 <= i < bars.len() implies run.low <= (#[trigger] bars[i]).low
            && bars[i].high <= run.high by {
            if i < n {
                assert(init[i] == bars[i]);
            }
        }
        let low = choose|i: int| 0 <= i < init.len() && before.low == (#[trigger] init[i]).low;
        let high = choose|i: int| 0 <= i < init.len() && before.high == (#[trigger] init[i]).high;
        assert(init[low] == bars[low] && init[high] == bars[high]);
    } else {
        assert(bars.drop_last() =~= Seq::<Bar>::empty());
        assert(run.low == bars[0].low && run.high == bars[0].high);
    }
}

/// Whether a bar shows a run, timed where it says.
pub open spec fn is_bar_of(bar: Bar, run: Agg) -> bool {
    &&& bar.time == run.time
    &&& bar.open == run.open
    &&& bar.high == run.high
    &&& bar.low == run.low
    &&& bar.close == run.close
    &&& bar.volume == run.volume
    &&& bar.trades == run.trades
    &&& bar.vwap is Undefined <==> run.volume == 0
    &&& run.volume != 0 ==> bar_turnover(bar) == run.mass
}

/// The bar of a run shows each of its figures under its own name, and an average where it has volume.
pub proof fn a_bar_shows_its_run(run: Agg)
    requires
        0 <= run.time <= u32::MAX,
        0 <= run.open <= u32::MAX,
        0 <= run.high <= u32::MAX,
        0 <= run.low <= u32::MAX,
        0 <= run.close <= u32::MAX,
        i64::MIN <= run.volume <= i64::MAX,
        i128::MIN <= run.mass <= i128::MAX,
        0 <= run.trades <= u64::MAX,
    ensures
        is_bar_of(run.bar(), run),
{
}

} // verus!
