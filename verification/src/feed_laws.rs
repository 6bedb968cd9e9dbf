//! Where a symbol's bars come from makes no difference to them.
use vstd::prelude::*;

use crate::aggregate::Agg;
use crate::calendar_laws as calendar;
use crate::feed::{in_query, BarPipeline};
use crate::interval::Granularity;
use crate::model::{Bar, Tick};
use crate::resample as rs;
use crate::resample::{ClockModel, RunState};
use crate::resample_laws as laws;
use crate::session::SessionModel;

verus! {

/// The session that a request filters the rows of a tick source by.
pub open spec fn row_filter(session: SessionModel, use_rth: bool) -> Option<SessionModel> {
    if use_rth {
        Some(session)
    } else {
        None
    }
}

/// The rows of a tick source that a scan takes in.
pub open spec fn ticks_taken(
    start: Option<u32>,
    end: Option<u32>,
    filter: Option<SessionModel>,
    ticks: Seq<Tick>,
) -> Seq<Tick> {
    ticks.filter(|tick: Tick| in_query(start, end, filter, tick.time as int))
}

/// The rows of a bar source that a scan takes in. No session filters them.
pub open spec fn bars_taken(start: Option<u32>, end: Option<u32>, bars: Seq<Bar>) -> Seq<Bar> {
    bars.filter(|bar: Bar| in_query(start, end, None, bar.time as int))
}

/// Whether a window splits no bucket of the items: it takes an item in exactly where it takes in the
/// start of the item's bucket.
pub open spec fn whole_buckets(
    clock: ClockModel,
    granularity: Granularity,
    start: Option<u32>,
    end: Option<u32>,
    items: Seq<Agg>,
) -> bool {
    forall|i: int|
        0 <= i < items.len() ==> in_query(
            start,
            end,
            None,
            clock.bucket(granularity, (#[trigger] items[i]).time),
        ) == in_query(start, end, None, items[i].time)
}

/// The items inside a window.
pub open spec fn windowed(start: Option<u32>, end: Option<u32>, items: Seq<Agg>) -> Seq<Agg>
    decreases items.len(),
{
    if items.len() == 0 {
        Seq::empty()
    } else if in_query(start, end, None, items.last().time) {
        windowed(start, end, items.drop_last()).push(items.last())
    } else {
        windowed(start, end, items.drop_last())
    }
}

/// A scan by a window and a session takes in what the window leaves of what the session leaves.
proof fn lemma_taken(
    start: Option<u32>,
    end: Option<u32>,
    filter: Option<SessionModel>,
    ticks: Seq<Tick>,
)
    ensures
        rs::tick_aggs(ticks_taken(start, end, filter, ticks)) == windowed(
            start,
            end,
            rs::tick_aggs(ticks_taken(None, None, filter, ticks)),
        ),
    decreases ticks.len(),
{
    reveal(Seq::filter);
    let held = ticks_taken(None, None, filter, ticks);
    if ticks.len() == 0 {
        assert(rs::tick_aggs(ticks_taken(start, end, filter, ticks)) =~= windowed(
            start,
            end,
            rs::tick_aggs(held),
        ));
    } else {
        let init = ticks.drop_last();
        let last = ticks.last();
        let before = ticks_taken(None, None, filter, init);
        lemma_taken(start, end, filter, init);
        let item = crate::aggregate::tick_agg(last);
        if in_query(None, None, filter, last.time as int) {
            assert(held == before.push(last));
            assert(rs::tick_aggs(held) =~= rs::tick_aggs(before).push(item));
            assert(rs::tick_aggs(held).drop_last() =~= rs::tick_aggs(before));
            assert(rs::tick_aggs(held).last() == item);
            let taken = ticks_taken(start, end, filter, init);
            assert(rs::tick_aggs(taken.push(last)) =~= rs::tick_aggs(taken).push(item));
        }
    }
}

proof fn lemma_ordered_init(items: Seq<Agg>)
    requires
        items.len() > 0,
        laws::ordered(items),
    ensures
        laws::ordered(items.drop_last()),
{
    let init = items.drop_last();
    assert forall|i: int| 0 <= i < init.len() implies 0 <= (#[trigger] init[i]).time
        < u32::MAX by {
        assert(init[i] == items[i]);
    }
    assert forall|i: int, j: int| 0 <= i < j < init.len() implies (#[trigger] init[i]).time <= (
    #[trigger] init[j]).time by {
        assert(init[i] == items[i] && init[j] == items[j]);
    }
}

proof fn lemma_steady_init(clock: ClockModel, granularity: Granularity, items: Seq<Agg>)
    requires
        items.len() > 0,
        laws::steady(clock, granularity, items),
    ensures
        laws::steady(clock, granularity, items.drop_last()),
{
    let init = items.drop_last();
    assert forall|i: int| 0 <= i < init.len() implies #[trigger] laws::in_step(
        clock,
        granularity,
        init,
        i,
    ) by {
        assert(laws::in_step(clock, granularity, items, i));
        assert(init.take(i) =~= items.take(i));
        assert(init[i] == items[i]);
    }
}

/// Taking one more item that lies in its bucket keeps a stretch steady.
proof fn lemma_steady_push(clock: ClockModel, granularity: Granularity, items: Seq<Agg>, item: Agg)
    requires
        laws::steady(clock, granularity, items),
        laws::in_step(clock, granularity, items.push(item), items.len() as int),
    ensures
        laws::steady(clock, granularity, items.push(item)),
{
    let all = items.push(item);
    assert forall|i: int| 0 <= i < all.len() implies #[trigger] laws::in_step(
        clock,
        granularity,
        all,
        i,
    ) by {
        if i < items.len() {
            assert(laws::in_step(clock, granularity, items, i));
            assert(all.take(i) =~= items.take(i));
            assert(all[i] == items[i]);
        }
    }
}

/// How far resampling has got with all items, and with those inside a window: with the same open
/// bucket where that lies inside, else with one that has ended.
spec fn in_pace(
    start: Option<u32>,
    end: Option<u32>,
    all: RunState,
    inside: RunState,
    last: int,
) -> bool {
    &&& all.run matches Some(run) && 0 <= run.time <= last && if in_query(
        start,
        end,
        None,
        run.time,
    ) {
        inside == all
    } else {
        inside.run matches Some(older) ==> inside.end <= last && older.time <= run.time
    }
}

spec fn bars_so_far(state: RunState, bars: Seq<Bar>) -> Seq<Bar> {
    bars + laws::flush(state)
}

/// A window that splits no bucket may be laid on the items or on their bars.
proof fn lemma_windowed(
    clock: ClockModel,
    granularity: Granularity,
    start: Option<u32>,
    end: Option<u32>,
    items: Seq<Agg>,
)
    requires
        laws::ordered(items),
        laws::steady(clock, granularity, items),
        whole_buckets(clock, granularity, start, end, items),
    ensures
        ({
            let inside = windowed(start, end, items);
            let (state, bars) = laws::feed(clock, granularity, laws::fresh(), items);
            let (kept, fewer) = laws::feed(clock, granularity, laws::fresh(), inside);
            &&& laws::steady(clock, granularity, inside)
            &&& bars_so_far(kept, fewer) == bars_taken(start, end, bars_so_far(state, bars))
            &&& items.len() > 0 ==> in_pace(start, end, state, kept, items.last().time)
        }),
    decreases items.len(),
{
    reveal(Seq::filter);
    let g = granularity;
    let none = Seq::<Bar>::empty();
    let inside = windowed(start, end, items);
    if items.len() == 0 {
        assert(inside =~= Seq::<Agg>::empty());
        assert(bars_so_far(laws::fresh(), none) =~= none);
    } else {
        let n = items.len() - 1;
        let x = items[n];
        let init = items.drop_last();
        let before = windowed(start, end, init);
        lemma_ordered_init(items);
        lemma_steady_init(clock, g, items);
        assert(whole_buckets(clock, g, start, end, init)) by {
            assert forall|i: int| 0 <= i < init.len() implies in_query(
                start,
                end,
                None,
                clock.bucket(g, (#[trigger] init[i]).time),
            ) == in_query(start, end, None, init[i].time) by {
                assert(init[i] == items[i]);
            }
        }
        lemma_windowed(clock, g, start, end, init);
        let (s0, bars0) = laws::feed(clock, g, laws::fresh(), init);
        let (k0, fewer0) = laws::feed(clock, g, laws::fresh(), before);
        let (s1, bars1) = laws::feed(clock, g, laws::fresh(), items);
        let (k1, fewer1) = laws::feed(clock, g, laws::fresh(), inside);
        assert(laws::in_step(clock, g, items, n));
        assert(items.take(n) =~= init);
        laws::feed_opens_at_once(clock, g, init);
        if n > 0 {
            assert(items[n - 1].time <= items[n].time);
            assert(init.last() == items[n - 1]);
        }
        let b = clock.bucket(g, x.time);
        let taken = in_query(start, end, None, x.time);
        assert(in_query(start, end, None, b) == taken);
        let pred = |bar: Bar| in_query(start, end, None, bar.time as int);
        Seq::filter_distributes_over_add(bars0, laws::flush(s0), pred);
        Seq::filter_distributes_over_add(bars1, laws::flush(s1), pred);
        lemma_filter_flush(start, end, s0);
        lemma_filter_flush(start, end, s1);
        if taken {
            assert(inside == before.push(x));
            assert(inside.drop_last() =~= before);
            assert(inside.last() == x);
            assert(inside.take(before.len() as int) =~= before);
            assert(laws::in_step(clock, g, inside, before.len() as int));
            lemma_steady_push(clock, g, before, x);
        }
        let joins = s0.run is Some && x.time < s0.end;
        if joins {
            assert(bars1 =~= bars0);
            if taken {
                assert(fewer1 =~= fewer0);
            }
            assert(bars_taken(start, end, bars0) + bars_taken(start, end, laws::flush(s1))
                == bars_taken(start, end, bars_so_far(s1, bars1)));
            if taken {
                lemma_cancel(fewer0, laws::flush(k0), bars_taken(start, end, bars0));
            }
        } else {
            assert(bars1 =~= bars_so_far(s0, bars0));
            if taken {
                assert(fewer1 =~= bars_so_far(k0, fewer0));
            } else {
                assert(bars_taken(start, end, bars1) + none =~= bars_taken(start, end, bars1));
            }
        }
    }
}

/// What a window leaves of the bar of an open run.
proof fn lemma_filter_flush(start: Option<u32>, end: Option<u32>, state: RunState)
    requires
        state.run matches Some(run) ==> 0 <= run.time <= u32::MAX,
    ensures
        bars_taken(start, end, laws::flush(state)) == match state.run {
            Some(run) => if in_query(start, end, None, run.time) {
                laws::flush(state)
            } else {
                Seq::empty()
            },
            None => Seq::empty(),
        },
{
    reveal(Seq::filter);
    reveal_with_fuel(Seq::filter, 2);
    if let Some(run) = state.run {
        let one = laws::flush(state);
        assert(one.drop_last() =~= Seq::<Bar>::empty());
        assert(one.last() == run.bar());
        assert(one.last().time == run.time);
        assert(Seq::<Bar>::empty().push(run.bar()) =~= one);
    }
}

/// Two stretches that are equal with the same end are equal without it.
proof fn lemma_cancel(a: Seq<Bar>, end: Seq<Bar>, b: Seq<Bar>)
    requires
        a + end == b + end,
    ensures
        a == b,
{
    let (left, right) = (a + end, b + end);
    assert(left.len() == a.len() + end.len() && right.len() == b.len() + end.len());
    assert forall|i: int| 0 <= i < a.len() implies a[i] == b[i] by {
        assert(left[i] == a[i] && right[i] == b[i]);
    }
    assert(a =~= b);
}

/// The same request gives the same bars from ticks, from finer bars, or from a sidecar.
///
/// Take a tick source, and bars of its ticks made under a session and stored: the request for a
/// window, answered from the stored bars without a row filter, is what it is when answered from the
/// ticks with one. For a sidecar both intervals are the same. The items and the stored bars lie in
/// the buckets they are gathered into; each stored bar starts in the bucket of its ticks, and says
/// all there is to say of them; and the window splits no stored bar.
pub proof fn the_same_bars_from_any_source(
    session: SessionModel,
    use_rth: bool,
    start: Option<u32>,
    end: Option<u32>,
    stored_at: Granularity,
    asked_for: Granularity,
    fill: bool,
    ticks: Seq<Tick>,
)
    requires
        ({
            let clock = ClockModel::Session(session);
            let filter = row_filter(session, use_rth);
            let held = rs::tick_aggs(ticks_taken(None, None, filter, ticks));
            let taken = rs::tick_aggs(ticks_taken(start, end, filter, ticks));
            &&& laws::ordered(held)
            &&& laws::steady(clock, stored_at, held)
            &&& whole_buckets(clock, stored_at, start, end, held)
            &&& laws::steady(clock, asked_for, taken)
            &&& laws::steady(
                clock,
                asked_for,
                rs::bar_aggs(rs::bars_of(clock, stored_at, taken)),
            )
            &&& laws::nested(clock, stored_at, asked_for, taken)
            &&& laws::all_kept(laws::runs_of(clock, stored_at, taken))
        }),
    ensures
        ({
            let clock = ClockModel::Session(session);
            let filter = row_filter(session, use_rth);
            let stored = rs::bars_of(
                clock,
                stored_at,
                rs::tick_aggs(ticks_taken(None, None, filter, ticks)),
            );
            let from_bars = rs::bar_aggs(bars_taken(start, end, stored));
            let from_ticks = rs::tick_aggs(ticks_taken(start, end, filter, ticks));
            rs::delivered(clock, asked_for, fill, rs::bars_of(clock, asked_for, from_bars))
                == rs::delivered(clock, asked_for, fill, rs::bars_of(clock, asked_for, from_ticks))
        }),
{
    let clock = ClockModel::Session(session);
    let filter = row_filter(session, use_rth);
    let held = rs::tick_aggs(ticks_taken(None, None, filter, ticks));
    let taken = rs::tick_aggs(ticks_taken(start, end, filter, ticks));
    lemma_taken(start, end, filter, ticks);
    lemma_windowed(clock, stored_at, start, end, held);
    laws::pushing_gives_the_bars(clock, stored_at, held);
    laws::pushing_gives_the_bars(clock, stored_at, taken);
    laws::resampling_in_stages(clock, stored_at, asked_for, taken);
}

/// What a scan takes of plain, ascending trades are such trades of theirs, each one admitted.
proof fn lemma_taken_trades(
    start: Option<u32>,
    end: Option<u32>,
    filter: Option<SessionModel>,
    ticks: Seq<Tick>,
)
    requires
        laws::ascending_trades(ticks),
        laws::plain_trades(ticks),
    ensures
        laws::ascending_trades(ticks_taken(start, end, filter, ticks)),
        laws::plain_trades(ticks_taken(start, end, filter, ticks)),
        forall|i: int|
            0 <= i < ticks_taken(start, end, filter, ticks).len() ==> taken_from(
                start,
                end,
                filter,
                ticks,
                #[trigger] ticks_taken(start, end, filter, ticks)[i],
            ),
{
    let taken = ticks_taken(start, end, filter, ticks);
    lemma_taken_ones(start, end, filter, ticks);
    lemma_taken_order(start, end, filter, ticks);
    assert forall|i: int| 0 <= i < taken.len() implies (#[trigger] taken[i]).time < u32::MAX
        && taken[i].size >= 0 by {
        assert(taken_from(start, end, filter, ticks, taken[i]));
        let j = choose|j: int| 0 <= j < ticks.len() && #[trigger] ticks[j] == taken[i];
        assert(ticks[j].time < u32::MAX && ticks[j].size >= 0);
    }
    lemma_sizes(start, end, filter, ticks);
    assert(ticks.subrange(0, ticks.len() as int) =~= ticks);
    assert(rs::size_sum(ticks.subrange(0, ticks.len() as int)) <= i64::MAX);
    assert forall|i: int, j: int| 0 <= i <= j <= taken.len() implies i64::MIN
        <= #[trigger] rs::size_sum(taken.subrange(i, j)) <= i64::MAX by {
        lemma_part_of_sizes(taken, i, j);
    }
}

/// Whether a trade is one of a source's that a scan takes in.
pub open spec fn taken_from(
    start: Option<u32>,
    end: Option<u32>,
    filter: Option<SessionModel>,
    ticks: Seq<Tick>,
    tick: Tick,
) -> bool {
    &&& in_query(start, end, filter, tick.time as int)
    &&& exists|j: int| 0 <= j < ticks.len() && #[trigger] ticks[j] == tick
}

proof fn lemma_taken_ones(
    start: Option<u32>,
    end: Option<u32>,
    filter: Option<SessionModel>,
    ticks: Seq<Tick>,
)
    ensures
        ticks_taken(start, end, filter, ticks).len() <= ticks.len(),
        forall|i: int|
            0 <= i < ticks_taken(start, end, filter, ticks).len() ==> taken_from(
                start,
                end,
                filter,
                ticks,
                #[trigger] ticks_taken(start, end, filter, ticks)[i],
            ),
    decreases ticks.len(),
{
    reveal(Seq::filter);
    if ticks.len() > 0 {
        let init = ticks.drop_last();
        let taken = ticks_taken(start, end, filter, ticks);
        let before = ticks_taken(start, end, filter, init);
        lemma_taken_ones(start, end, filter, init);
        assert forall|i: int| 0 <= i < taken.len() implies taken_from(
            start,
            end,
            filter,
            ticks,
            #[trigger] taken[i],
        ) by {
            if i < before.len() {
                assert(taken[i] == before[i]);
                assert(taken_from(start, end, filter, init, before[i]));
                let j = choose|j: int| 0 <= j < init.len() && #[trigger] init[j] == before[i];
                assert(ticks[j] == taken[i]);
            } else {
                assert(ticks[ticks.len() - 1] == taken[i]);
            }
        }
    }
}

proof fn lemma_taken_order(
    start: Option<u32>,
    end: Option<u32>,
    filter: Option<SessionModel>,
    ticks: Seq<Tick>,
)
    requires
        forall|i: int, j: int|
            0 <= i < j < ticks.len() ==> (#[trigger] ticks[i]).time <= (#[trigger] ticks[j]).time,
    ensures
        ({
            let taken = ticks_taken(start, end, filter, ticks);
            forall|i: int, j: int|
                0 <= i < j < taken.len() ==> (#[trigger] taken[i]).time <= (
                #[trigger] taken[j]).time
        }),
    decreases ticks.len(),
{
    reveal(Seq::filter);
    if ticks.len() > 0 {
        let init = ticks.drop_last();
        let n = ticks.len() - 1;
        let taken = ticks_taken(start, end, filter, ticks);
        let before = ticks_taken(start, end, filter, init);
        assert forall|i: int, j: int| 0 <= i < j < init.len() implies (#[trigger] init[i]).time <= (
        #[trigger] init[j]).time by {
            assert(ticks[i].time <= ticks[j].time);
        }
        lemma_taken_order(start, end, filter, init);
        lemma_taken_ones(start, end, filter, init);
        assert forall|i: int, j: int| 0 <= i < j < taken.len() implies (#[trigger] taken[i]).time
            <= (#[trigger] taken[j]).time by {
            assert(taken[i] == before[i]);
            if j < before.len() {
                assert(taken[j] == before[j]);
            } else {
                assert(taken_from(start, end, filter, init, before[i]));
                let k = choose|k: int| 0 <= k < init.len() && #[trigger] init[k] == before[i];
                assert(ticks[k].time <= ticks[n].time);
            }
        }
    }
}

proof fn lemma_sizes(
    start: Option<u32>,
    end: Option<u32>,
    filter: Option<SessionModel>,
    ticks: Seq<Tick>,
)
    requires
        forall|i: int| 0 <= i < ticks.len() ==> (#[trigger] ticks[i]).size >= 0,
    ensures
        0 <= rs::size_sum(ticks_taken(start, end, filter, ticks)) <= rs::size_sum(ticks),
    decreases ticks.len(),
{
    reveal(Seq::filter);
    if ticks.len() > 0 {
        let init = ticks.drop_last();
        let before = ticks_taken(start, end, filter, init);
        assert forall|i: int| 0 <= i < init.len() implies (#[trigger] init[i]).size >= 0 by {
            assert(ticks[i].size >= 0);
        }
        lemma_sizes(start, end, filter, init);
        assert(ticks[ticks.len() - 1].size >= 0);
        assert(before.push(ticks.last()).drop_last() =~= before);
    }
}

/// A stretch of trades, none of a size below zero, amounts to no more than all of them.
proof fn lemma_part_of_sizes(ticks: Seq<Tick>, i: int, j: int)
    requires
        0 <= i <= j <= ticks.len(),
        forall|k: int| 0 <= k < ticks.len() ==> (#[trigger] ticks[k]).size >= 0,
    ensures
        0 <= rs::size_sum(ticks.subrange(i, j)) <= rs::size_sum(ticks),
    decreases ticks.len(),
{
    if ticks.len() > 0 {
        let init = ticks.drop_last();
        assert forall|k: int| 0 <= k < init.len() implies (#[trigger] init[k]).size >= 0 by {
            assert(ticks[k].size >= 0);
        }
        assert(ticks[ticks.len() - 1].size >= 0);
        if j < ticks.len() {
            assert(ticks.subrange(i, j) =~= init.subrange(i, j));
            lemma_part_of_sizes(init, i, j);
        } else if i < j {
            assert(ticks.subrange(i, j).drop_last() =~= init.subrange(i, j - 1));
            lemma_part_of_sizes(init, i, j - 1);
        } else {
            assert(ticks.subrange(i, j) =~= Seq::<Tick>::empty());
            lemma_part_of_sizes(init, 0, 0);
            assert(init.subrange(0, 0) =~= Seq::<Tick>::empty());
        }
    }
}

/// Whether a source's trades lie where a calendar interval can be asked for: in buckets within the
/// days from `first` up to `last`.
pub open spec fn trades_within(
    zone: Seq<char>,
    granularity: Granularity,
    first: int,
    last: int,
    ticks: Seq<Tick>,
) -> bool {
    forall|i: int|
        0 <= i < ticks.len() ==> calendar::within(
            zone,
            granularity,
            first,
            last,
            (#[trigger] ticks[i]).time as int,
        )
}

/// The answer to a request of regular hours, at an interval of days or more: from ticks.
pub open spec fn from_ticks(
    session: SessionModel,
    granularity: Granularity,
    start: Option<u32>,
    end: Option<u32>,
    fill: bool,
    ticks: Seq<Tick>,
) -> Seq<Bar> {
    let clock = ClockModel::Session(session);
    let items = rs::tick_aggs(ticks_taken(start, end, Some(session), ticks));
    rs::delivered(clock, granularity, fill, rs::bars_of(clock, granularity, items))
}

/// The answer to a request, from stored bars.
pub open spec fn from_bars(
    session: SessionModel,
    granularity: Granularity,
    start: Option<u32>,
    end: Option<u32>,
    fill: bool,
    stored: Seq<Bar>,
) -> Seq<Bar> {
    let clock = ClockModel::Session(session);
    let items = rs::bar_aggs(bars_taken(start, end, stored));
    rs::delivered(clock, granularity, fill, rs::bars_of(clock, granularity, items))
}

/// The bars of a source's ticks in regular hours, as a file or a sidecar stores them.
pub open spec fn stored_bars(
    session: SessionModel,
    granularity: Granularity,
    ticks: Seq<Tick>,
) -> Seq<Bar> {
    rs::bars_of(
        ClockModel::Session(session),
        granularity,
        rs::tick_aggs(ticks_taken(None, None, Some(session), ticks)),
    )
}

/// A request for daily bars, or any others of a calendar, in regular hours gives the same bars from
/// ticks, from a file of finer bars, and from a sidecar: on a session whose zone goes through its
/// days one after another and whose hours lie within them, for a window that splits no stored bar.
pub proof fn the_same_calendar_bars_from_any_source(
    session: SessionModel,
    secs: u32,
    granularity: Granularity,
    first: int,
    last: int,
    start: Option<u32>,
    end: Option<u32>,
    fill: bool,
    ticks: Seq<Tick>,
)
    requires
        secs > 0,
        !(granularity is SubDay),
        rs::counts(granularity),
        calendar::keeps_days(session.zone, first, last),
        calendar::keeps_hours(session, secs, first, last),
        laws::ascending_trades(ticks),
        laws::plain_trades(ticks),
        trades_within(session.zone, granularity, first, last, ticks),
        ({
            let clock = ClockModel::Session(session);
            let held = rs::tick_aggs(ticks_taken(None, None, Some(session), ticks));
            &&& whole_buckets(clock, Granularity::SubDay(secs), start, end, held)
            &&& whole_buckets(clock, granularity, start, end, held)
        }),
    ensures
        from_bars(
            session,
            granularity,
            start,
            end,
            fill,
            stored_bars(session, Granularity::SubDay(secs), ticks),
        ) == from_ticks(session, granularity, start, end, fill, ticks),
        from_bars(
            session,
            granularity,
            start,
            end,
            fill,
            stored_bars(session, granularity, ticks),
        ) == from_ticks(session, granularity, start, end, fill, ticks),
{
    let clock = ClockModel::Session(session);
    let fine = Granularity::SubDay(secs);
    let filter = row_filter(session, true);
    let held_ticks = ticks_taken(None, None, filter, ticks);
    let taken_ticks = ticks_taken(start, end, filter, ticks);
    let (held, taken) = (rs::tick_aggs(held_ticks), rs::tick_aggs(taken_ticks));
    lemma_in_place(session, secs, granularity, first, last, None, None, ticks);
    lemma_in_place(session, secs, granularity, first, last, start, end, ticks);
    calendar::session_hours_are_steady(session, secs, granularity, first, last, held);
    calendar::session_hours_are_steady(session, secs, granularity, first, last, taken);
    calendar::calendar_buckets_are_steady(clock, granularity, first, last, held);
    calendar::calendar_buckets_are_steady(clock, granularity, first, last, taken);
    calendar::calendar_buckets_nest_in_themselves(clock, granularity, first, last, taken);
    laws::trades_are_kept(clock, fine, taken_ticks);
    laws::trades_are_kept(clock, granularity, taken_ticks);
    calendar::lemma_bars_within(clock, fine, granularity, first, last, taken);
    calendar::lemma_bars_within(clock, granularity, granularity, first, last, taken);
    calendar::calendar_buckets_are_steady(
        clock,
        granularity,
        first,
        last,
        rs::bar_aggs(rs::bars_of(clock, fine, taken)),
    );
    calendar::calendar_buckets_are_steady(
        clock,
        granularity,
        first,
        last,
        rs::bar_aggs(rs::bars_of(clock, granularity, taken)),
    );
    the_same_bars_from_any_source(session, true, start, end, fine, granularity, fill, ticks);
    the_same_bars_from_any_source(
        session,
        true,
        start,
        end,
        granularity,
        granularity,
        fill,
        ticks,
    );
}

/// What a scan takes of a source's regular hours is ascending, plain, in hours and within the days.
proof fn lemma_in_place(
    session: SessionModel,
    secs: u32,
    granularity: Granularity,
    first: int,
    last: int,
    start: Option<u32>,
    end: Option<u32>,
    ticks: Seq<Tick>,
)
    requires
        calendar::keeps_hours(session, secs, first, last),
        laws::ascending_trades(ticks),
        laws::plain_trades(ticks),
        trades_within(session.zone, granularity, first, last, ticks),
    ensures
        ({
            let taken = ticks_taken(start, end, Some(session), ticks);
            let items = rs::tick_aggs(taken);
            &&& laws::plain_trades(taken)
            &&& laws::ordered(items)
            &&& calendar::all_in_hours(session, secs, first, last, items)
            &&& calendar::all_within(session.zone, granularity, first, last, items)
        }),
{
    let taken = ticks_taken(start, end, Some(session), ticks);
    let items = rs::tick_aggs(taken);
    lemma_taken_trades(start, end, Some(session), ticks);
    laws::lemma_ordered_trades(taken);
    assert forall|i: int| 0 <= i < items.len() implies calendar::in_hours(
        session,
        secs,
        first,
        last,
        (#[trigger] items[i]).time,
    ) && calendar::within(session.zone, granularity, first, last, items[i].time) by {
        assert(items[i].time == taken[i].time);
        assert(taken_from(start, end, Some(session), ticks, taken[i]));
        let j = choose|j: int| 0 <= j < ticks.len() && #[trigger] ticks[j] == taken[i];
        assert(calendar::within(
            session.zone,
            granularity,
            first,
            last,
            ticks[j].time as int,
        ));
        assert(session.holds(taken[i].time as int));
    }
}

// ---- several files ---------------------------------------------------------------------

/// The ticks of several files, one after the other.
pub open spec fn in_a_row(files: Seq<Seq<Tick>>) -> Seq<Tick>
    decreases files.len(),
{
    if files.len() == 0 {
        Seq::empty()
    } else {
        in_a_row(files.drop_last()) + files.last()
    }
}

/// What resampling has open and has closed after several files, each fed into what the one before it
/// left open.
pub open spec fn fed_by_files(
    clock: ClockModel,
    granularity: Granularity,
    files: Seq<Seq<Tick>>,
) -> (RunState, Seq<Bar>)
    decreases files.len(),
{
    if files.len() == 0 {
        (laws::fresh(), Seq::empty())
    } else {
        let (state, bars) = fed_by_files(clock, granularity, files.drop_last());
        let (after, closed) = laws::feed(clock, granularity, state, rs::tick_aggs(files.last()));
        (after, bars + closed)
    }
}

/// How a symbol's ticks are split over files makes no difference: fed file by file, a pipeline gives
/// the bars of `resample` over all of them in a row, in order, and a bucket that spans two files
/// closes once.
pub proof fn several_files_are_one_stream(
    clock: ClockModel,
    granularity: Granularity,
    fill: bool,
    files: Seq<Seq<Tick>>,
)
    ensures
        fed_by_files(clock, granularity, files) == laws::feed(
            clock,
            granularity,
            laws::fresh(),
            rs::tick_aggs(in_a_row(files)),
        ),
        ({
            let (state, closed) = fed_by_files(clock, granularity, files);
            rs::delivered(clock, granularity, fill, closed + laws::flush(state)) == rs::delivered(
                clock,
                granularity,
                fill,
                rs::bars_of(clock, granularity, rs::tick_aggs(in_a_row(files))),
            )
        }),
    decreases files.len(),
{
    let all = rs::tick_aggs(in_a_row(files));
    if files.len() == 0 {
        assert(all =~= Seq::<Agg>::empty());
    } else {
        let init = files.drop_last();
        several_files_are_one_stream(clock, granularity, fill, init);
        let before = rs::tick_aggs(in_a_row(init));
        let last = rs::tick_aggs(files.last());
        assert(all =~= before + last);
        laws::feeding_in_pieces(clock, granularity, laws::fresh(), before, last);
    }
    laws::pushing_gives_the_bars(clock, granularity, all);
}

/// A pipeline that has taken in the ticks of several files, none left out and in their order, owes
/// what `resample` gives of them all in a row.
pub proof fn a_pipeline_owes_the_bars_of_its_files(pipeline: BarPipeline, files: Seq<Seq<Tick>>)
    requires
        pipeline.valid(),
        pipeline.making() is FromTicks,
        pipeline.ticks_in() == in_a_row(files),
    ensures
        pipeline.due() == rs::delivered(
            pipeline.clock(),
            pipeline.step_by().anchoring(),
            pipeline.fills(),
            rs::bars_of(
                pipeline.clock(),
                pipeline.step_by().anchoring(),
                rs::tick_aggs(in_a_row(files)),
            ),
        ),
        pipeline.bars_out() == rs::delivered(
            pipeline.clock(),
            pipeline.step_by().anchoring(),
            pipeline.fills(),
            fed_by_files(pipeline.clock(), pipeline.step_by().anchoring(), files).1,
        ),
{
    several_files_are_one_stream(
        pipeline.clock(),
        pipeline.step_by().anchoring(),
        pipeline.fills(),
        files,
    );
    crate::feed::bars_come_out_as_buckets_close(pipeline);
}

} // verus!
