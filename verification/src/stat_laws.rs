//! A summary is the same from trades and from bars.
use vstd::prelude::*;

use crate::aggregate as agg;
use crate::aggregate::Agg;
use crate::interval::Granularity;
use crate::model::{Bar, Tick};
use crate::resample as rs;
use crate::resample::ClockModel;
use crate::resample_laws as laws;
use crate::stat::{figures, figures_grow, Figures};

verus! {

/// Whether items close between their low and their high.
pub open spec fn sound(items: Seq<Agg>) -> bool {
    forall|i: int|
        0 <= i < items.len() ==> (#[trigger] items[i]).low <= items[i].close <= items[i].high
}

/// Flat bars at a price that has been seen leave every figure but the last time as it is.
proof fn lemma_flat_figures(items: Seq<Agg>, flats: Seq<Bar>, price: u32)
    requires
        figures(items) matches Some(f) && f.min <= price <= f.max,
        forall|i: int| 0 <= i < flats.len() ==> laws::is_flat(#[trigger] flats[i], price),
    ensures
        figures(items + rs::bar_aggs(flats)) is Some,
        ({
            let (f, g) = (figures(items)->0, figures(items + rs::bar_aggs(flats))->0);
            g == Figures { last: g.last, ..f }
        }),
    decreases flats.len(),
{
    if flats.len() == 0 {
        assert(items + rs::bar_aggs(flats) =~= items);
    } else {
        let init = flats.drop_last();
        let n = flats.len() - 1;
        assert forall|i: int| 0 <= i < init.len() implies laws::is_flat(
            #[trigger] init[i],
            price,
        ) by {
            assert(laws::is_flat(flats[i], price));
        }
        lemma_flat_figures(items, init, price);
        assert(laws::is_flat(flats[n], price));
        let item = agg::bar_agg(flats[n]);
        assert(item.mass == 0) by {
            assert(flats[n].mass() == price * 0);
        }
        figures_grow(items + rs::bar_aggs(init), item);
        assert(items + rs::bar_aggs(flats) =~= (items + rs::bar_aggs(init)).push(item));
    }
}

/// Filling the gaps between bars changes no figure of their summary.
pub proof fn filling_keeps_the_figures(
    clock: ClockModel,
    granularity: Granularity,
    bars: Seq<Bar>,
)
    requires
        sound(rs::bar_aggs(bars)),
    ensures
        figures(rs::bar_aggs(rs::with_gaps(clock, granularity, bars))) == figures(
            rs::bar_aggs(bars),
        ),
    decreases bars.len(),
{
    if bars.len() > 1 {
        let n = bars.len() - 1;
        let init = bars.drop_last();
        let items = rs::bar_aggs(bars);
        let before = rs::bar_aggs(init);
        assert(sound(before)) by {
            assert forall|i: int| 0 <= i < before.len() implies (#[trigger] before[i]).low
                <= before[i].close <= before[i].high by {
                assert(before[i] == items[i]);
            }
        }
        filling_keeps_the_figures(clock, granularity, init);
        let prev = bars[n - 1];
        let last = agg::bar_agg(bars[n]);
        let flats = rs::gap(clock, granularity, prev, bars[n]);
        laws::fill_only_bridges_the_gap(clock, granularity, prev, bars[n]);
        // The previous close lies between the lowest and the highest price so far.
        let earlier = before.drop_last();
        assert(before =~= earlier.push(agg::bar_agg(prev)));
        figures_grow(earlier, agg::bar_agg(prev));
        assert(items[n - 1].low <= items[n - 1].close <= items[n - 1].high);
        let filled = rs::bar_aggs(rs::with_gaps(clock, granularity, init));
        lemma_flat_figures(filled, flats, prev.close);
        figures_grow(filled + rs::bar_aggs(flats), last);
        figures_grow(before, last);
        assert(items =~= before.push(last));
        assert(rs::bar_aggs(rs::with_gaps(clock, granularity, bars)) =~= (filled + rs::bar_aggs(
            flats,
        )).push(last));
    }
}

/// Runs of items that close between their low and their high do so too.
proof fn lemma_sound_runs(
    clock: ClockModel,
    granularity: Granularity,
    run: Agg,
    end: int,
    items: Seq<Agg>,
)
    requires
        run.low <= run.close <= run.high,
        sound(items),
    ensures
        sound(laws::runs_from(clock, granularity, run, end, items)),
    decreases items.len(),
{
    if items.len() > 0 {
        let rest = items.drop_first();
        assert(items[0].low <= items[0].close <= items[0].high);
        assert(sound(rest)) by {
            assert forall|i: int| 0 <= i < rest.len() implies (#[trigger] rest[i]).low
                <= rest[i].close <= rest[i].high by {
                assert(rest[i] == items[i + 1]);
            }
        }
        if items[0].time < end {
            lemma_sound_runs(clock, granularity, run.then_run(items[0]), end, rest);
        } else {
            let start = clock.bucket(granularity, items[0].time);
            let stop = clock.bucket_end(granularity, start);
            let opened = items[0].timed(start);
            lemma_sound_runs(clock, granularity, opened, stop, rest);
            let more = laws::runs_from(clock, granularity, opened, stop, rest);
            let runs = seq![run] + more;
            assert forall|i: int| 0 <= i < runs.len() implies (#[trigger] runs[i]).low
                <= runs[i].close <= runs[i].high by {
                if i > 0 {
                    assert(runs[i] == more[i - 1]);
                }
            }
        }
    }
}

/// A summary of trades and a summary of the bars they resample into, filled or not, at any interval
/// and on any clock, show the same lowest and highest price, price mass, volume and trades, of which
/// there are as many as were given.
pub proof fn summaries_of_trades_and_bars_agree(
    clock: ClockModel,
    granularity: Granularity,
    fill: bool,
    ticks: Seq<Tick>,
)
    requires
        rs::counts(granularity),
        ticks.len() > 0,
        laws::plain_trades(ticks),
    ensures
        ({
            let items = rs::tick_aggs(ticks);
            let bars = rs::delivered(
                clock,
                granularity,
                fill,
                rs::bars_of(clock, granularity, items),
            );
            let (a, b) = (figures(items)->0, figures(rs::bar_aggs(bars))->0);
            &&& figures(items) is Some
            &&& figures(rs::bar_aggs(bars)) is Some
            &&& a.min == b.min
            &&& a.max == b.max
            &&& a.mass == b.mass
            &&& a.volume == b.volume
            &&& a.trades == b.trades
            &&& a.trades == ticks.len()
        }),
{
    let items = rs::tick_aggs(ticks);
    let bars = rs::bars_of(clock, granularity, items);
    let runs = laws::runs_of(clock, granularity, items);
    laws::trades_are_kept(clock, granularity, ticks);
    laws::tick_and_bar_stats_agree(clock, granularity, items);
    lemma_trade_count(ticks);
    let start = clock.bucket(granularity, items[0].time);
    assert(sound(items.drop_first()));
    lemma_sound_runs(
        clock,
        granularity,
        items[0].timed(start),
        clock.bucket_end(granularity, start),
        items.drop_first(),
    );
    laws::bars_come_from_runs(clock, granularity, items);
    laws::lemma_kept_runs(runs);
    filling_keeps_the_figures(clock, granularity, bars);
}

proof fn lemma_trade_count(ticks: Seq<Tick>)
    requires
        ticks.len() > 0,
    ensures
        agg::total(rs::tick_aggs(ticks)).trades == ticks.len(),
    decreases ticks.len(),
{
    let items = rs::tick_aggs(ticks);
    if ticks.len() > 1 {
        lemma_trade_count(ticks.drop_last());
        assert(items.drop_last() =~= rs::tick_aggs(ticks.drop_last()));
        assert(items.last() == agg::tick_agg(ticks.last()));
    } else {
        assert(items[0] == agg::tick_agg(ticks[0]));
    }
}

} // verus!
