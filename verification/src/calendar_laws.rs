//! Buckets of days and more, on a clock that goes through its days one after another.
//!
//! What a time zone does with its days is for its database to say; here it is a condition, which
//! leaves out a zone that skips a date, or shows a date again after the next one has begun.
use vstd::prelude::*;

use crate::aggregate::Agg;
use crate::civil::{date_of, zone_date, CivilDate};
use crate::interval::Granularity;
use crate::model::Bar;
use crate::resample as rs;
use crate::resample::ClockModel;
use crate::resample_laws as laws;
use crate::session::SessionModel;

verus! {

/// The instant at which a day begins in a zone.
pub open spec fn day_start(zone: Seq<char>, day: int) -> Option<int> {
    rs::midnight(zone, Some(date_of(day)))
}

/// Whether an instant lies in its own day: from the day's midnight up to the next day's.
pub open spec fn lies_in_its_day(zone: Seq<char>, first: int, last: int, time: int) -> bool {
    let date = zone_date(zone, time);
    &&& date.valid()
    &&& first <= date.number() < last
    &&& day_start(zone, date.number())->0 <= time < day_start(zone, date.number() + 1)->0
}

/// Whether a zone's clock goes through the days from `first` up to `last` one after another: each
/// begins at its midnight, which shows its date, and every instant lies in its own day.
pub open spec fn keeps_days(zone: Seq<char>, first: int, last: int) -> bool {
    &&& crate::civil::min_number() <= first <= last <= crate::civil::max_number()
    &&& forall|k: int|
        first <= k <= last ==> (#[trigger] day_start(zone, k)) is Some && zone_date(
            zone,
            day_start(zone, k)->0,
        ) == date_of(k)
    &&& forall|k: int, l: int|
        first <= k < l <= last ==> (#[trigger] day_start(zone, k))->0 < (#[trigger] day_start(
            zone,
            l,
        ))->0
    &&& forall|t: int|
        day_start(zone, first)->0 <= t < day_start(zone, last)->0 ==> #[trigger] lies_in_its_day(
            zone,
            first,
            last,
            t,
        )
}

/// Whether the calendar bucket of an instant lies within the days from `first` up to `last`.
pub open spec fn within(
    zone: Seq<char>,
    granularity: Granularity,
    first: int,
    last: int,
    time: int,
) -> bool {
    &&& day_start(zone, first)->0 <= time < day_start(zone, last)->0
    &&& rs::floor_date(zone_date(zone, time), granularity) matches Some(from)
    &&& first <= from.number()
    &&& rs::next_date(from, granularity) matches Some(to)
    &&& to.number() <= last
}

pub open spec fn all_within(
    zone: Seq<char>,
    granularity: Granularity,
    first: int,
    last: int,
    items: Seq<Agg>,
) -> bool {
    forall|i: int|
        0 <= i < items.len() ==> within(zone, granularity, first, last, (#[trigger] items[i]).time)
}

// ---- the calendar ----------------------------------------------------------------------

/// The dates of a calendar bucket share its first date.
pub proof fn calendar_buckets_are_stretches_of_dates(
    first: CivilDate,
    date: CivilDate,
    granularity: Granularity,
)
    requires
        !(granularity is SubDay),
        rs::counts(granularity),
        first.valid(),
        date.valid(),
        rs::floor_date(first, granularity) is Some,
        rs::next_date(rs::floor_date(first, granularity)->0, granularity) is Some,
        ({
            let from = rs::floor_date(first, granularity)->0;
            from.number() <= date.number() < rs::next_date(from, granularity)->0.number()
        }),
    ensures
        rs::floor_date(date, granularity) == rs::floor_date(first, granularity),
{
    let from = rs::floor_date(first, granularity)->0;
    let to = rs::next_date(from, granularity)->0;
    laws::calendar_bucket_holds_its_date(first, granularity);
    crate::civil::lemma_number_bounds();
    match granularity {
        Granularity::SubDay(_) => {},
        Granularity::Day(n) => {
            let q = first.number() / n as int;
            crate::civil::lemma_date_exists(q * n);
            crate::civil::lemma_date_exists(q * n + n);
            lemma_quotient(date.number(), n as int, q);
        },
        Granularity::Week(n) => {
            let w = (first.number() - 4) / 7;
            let q = w / n as int;
            crate::civil::lemma_date_exists(4 + q * n * 7);
            crate::civil::lemma_date_exists(4 + q * n * 7 + n * 7);
            let v = (date.number() - 4) / 7;
            assert(q * n <= v < q * n + n) by {
                assert(q * n * 7 == 7 * (q * n)) by (nonlinear_arith);
                assert(7 * (q * n) <= date.number() - 4 < 7 * (q * n) + 7 * n);
            }
            lemma_quotient(v, n as int, q);
        },
        Granularity::Month(n) => {
            let q = first.month_number() / n as int;
            let m = date.month_number();
            assert(from.month_number() == q * n);
            assert(to.month_number() == q * n + n);
            crate::civil::number_orders_dates(date, from);
            crate::civil::number_orders_dates(date, to);
            lemma_quotient(m, n as int, q);
        },
        Granularity::Year(n) => {
            let q = first.year as int / n as int;
            assert(from.year == q * n && from.month == 1 && from.day == 1);
            assert(to.month_number() == from.month_number() + n * 12);
            assert(to.year == q * n + n && to.month == 1);
            crate::civil::number_orders_dates(date, from);
            crate::civil::number_orders_dates(date, to);
            lemma_quotient(date.year as int, n as int, q);
        },
    }
}

proof fn lemma_quotient(a: int, n: int, q: int)
    requires
        n > 0,
        q * n <= a < q * n + n,
    ensures
        a / n == q,
{
    vstd::arithmetic::div_mod::lemma_fundamental_div_mod_converse(a, n, q, a - q * n);
}

// ---- buckets of a calendar -------------------------------------------------------------

/// An instant from the start of a day up to the next one's shows that day.
proof fn lemma_day(zone: Seq<char>, first: int, last: int, day: int, time: int)
    requires
        keeps_days(zone, first, last),
        first <= day < last,
        day_start(zone, day)->0 <= time < day_start(zone, day + 1)->0,
    ensures
        zone_date(zone, time) == date_of(day),
        lies_in_its_day(zone, first, last, time),
{
    assert(day_start(zone, first)->0 <= day_start(zone, day)->0) by {
        if first < day {
            assert(day_start(zone, first)->0 < day_start(zone, day)->0);
        }
    }
    assert(day_start(zone, day + 1)->0 <= day_start(zone, last)->0) by {
        if day + 1 < last {
            assert(day_start(zone, day + 1)->0 < day_start(zone, last)->0);
        }
    }
    assert(lies_in_its_day(zone, first, last, time));
    let shown = zone_date(zone, time).number();
    if shown < day {
        if shown + 1 < day {
            assert(day_start(zone, shown + 1)->0 < day_start(zone, day)->0);
        }
    } else if shown > day {
        if day + 1 < shown {
            assert(day_start(zone, day + 1)->0 < day_start(zone, shown)->0);
        }
    }
    crate::civil::lemma_date_of(zone_date(zone, time));
}

/// What a calendar bucket is, in days.
proof fn lemma_calendar_bucket(
    clock: ClockModel,
    granularity: Granularity,
    first: int,
    last: int,
    time: int,
)
    requires
        !(granularity is SubDay),
        rs::counts(granularity),
        keeps_days(clock.zone(), first, last),
        within(clock.zone(), granularity, first, last, time),
    ensures
        ({
            let zone = clock.zone();
            let from = rs::floor_date(zone_date(zone, time), granularity)->0;
            let to = rs::next_date(from, granularity)->0;
            let start = clock.bucket(granularity, time);
            &&& from.valid()
            &&& to.valid()
            &&& first <= from.number() <= zone_date(zone, time).number() < to.number() <= last
            &&& start == day_start(zone, from.number())->0
            &&& 0 <= start <= time
            &&& zone_date(zone, start) == from
            &&& clock.bucket_end(granularity, start) == day_start(zone, to.number())->0
            &&& time < clock.bucket_end(granularity, start)
        }),
{
    let zone = clock.zone();
    let date = zone_date(zone, time);
    assert(lies_in_its_day(zone, first, last, time));
    let from = rs::floor_date(date, granularity)->0;
    let to = rs::next_date(from, granularity)->0;
    laws::calendar_bucket_holds_its_date(date, granularity);
    crate::civil::lemma_date_of(from);
    crate::civil::lemma_date_of(to);
    let (a, d, b) = (from.number(), date.number(), to.number());
    assert(day_start(zone, a) is Some && day_start(zone, d) is Some && day_start(zone, b) is Some
        && day_start(zone, d + 1) is Some);
    if a < d {
        assert(day_start(zone, a)->0 < day_start(zone, d)->0);
    }
    if d + 1 < b {
        assert(day_start(zone, d + 1)->0 < day_start(zone, b)->0);
    }
    assert(day_start(zone, a)->0 < day_start(zone, b)->0);
    assert(clock.bucket(granularity, time) == day_start(zone, a)->0);
    assert(clock.next(granularity, day_start(zone, a)->0) == day_start(zone, b)->0);
}

/// Of two instants, the later one lies in the earlier one's calendar bucket up to its end, and then
/// in a later one.
proof fn lemma_calendar_step(
    clock: ClockModel,
    granularity: Granularity,
    first: int,
    last: int,
    x: int,
    y: int,
)
    requires
        !(granularity is SubDay),
        rs::counts(granularity),
        keeps_days(clock.zone(), first, last),
        within(clock.zone(), granularity, first, last, x),
        within(clock.zone(), granularity, first, last, y),
        x <= y,
    ensures
        ({
            let start = clock.bucket(granularity, x);
            if y < clock.bucket_end(granularity, start) {
                clock.bucket(granularity, y) == start
            } else {
                clock.bucket(granularity, y) > start
            }
        }),
{
    let zone = clock.zone();
    lemma_calendar_bucket(clock, granularity, first, last, x);
    lemma_calendar_bucket(clock, granularity, first, last, y);
    let (dx, dy) = (zone_date(zone, x), zone_date(zone, y));
    assert(lies_in_its_day(zone, first, last, x) && lies_in_its_day(zone, first, last, y));
    let (fx, fy) = (
        rs::floor_date(dx, granularity)->0,
        rs::floor_date(dy, granularity)->0,
    );
    let (nx, ny) = (
        rs::next_date(fx, granularity)->0,
        rs::next_date(fy, granularity)->0,
    );
    // Days do not go back.
    if dy.number() < dx.number() && dy.number() + 1 < dx.number() {
        assert(day_start(zone, dy.number() + 1)->0 < day_start(zone, dx.number())->0);
    }
    assert(dx.number() <= dy.number());
    let end = day_start(zone, nx.number())->0;
    if y < end {
        if nx.number() < dy.number() {
            assert(day_start(zone, nx.number())->0 < day_start(zone, dy.number())->0);
        }
        assert(dy.number() < nx.number());
        calendar_buckets_are_stretches_of_dates(dx, dy, granularity);
    } else {
        if dy.number() + 1 < nx.number() {
            assert(day_start(zone, dy.number() + 1)->0 < day_start(zone, nx.number())->0);
        }
        assert(dy.number() >= nx.number());
        if fy.number() <= fx.number() {
            calendar_buckets_are_stretches_of_dates(dx, fx, granularity);
            calendar_buckets_are_stretches_of_dates(dy, fx, granularity);
        }
        assert(fx.number() < fy.number());
        assert(day_start(zone, fx.number())->0 < day_start(zone, fy.number())->0);
    }
}

/// After some items, the open run starts the calendar bucket of the last of them.
proof fn lemma_calendar_run(
    clock: ClockModel,
    granularity: Granularity,
    first: int,
    last: int,
    items: Seq<Agg>,
    n: int,
)
    requires
        !(granularity is SubDay),
        rs::counts(granularity),
        keeps_days(clock.zone(), first, last),
        laws::ordered(items),
        all_within(clock.zone(), granularity, first, last, items),
        0 <= n <= items.len(),
    ensures
        ({
            let state = laws::feed(clock, granularity, laws::fresh(), items.take(n)).0;
            n > 0 ==> {
                &&& state.run is Some
                &&& state.run->0.time == clock.bucket(granularity, items[n - 1].time)
                &&& state.end == clock.bucket_end(granularity, state.run->0.time)
            }
        }),
    decreases n,
{
    if n > 0 {
        lemma_calendar_run(clock, granularity, first, last, items, n - 1);
        laws::feed_opens_at_once(clock, granularity, items.take(n - 1));
        assert(items.take(n).drop_last() =~= items.take(n - 1));
        assert(items.take(n).last() == items[n - 1]);
        if n > 1 {
            let (x, y) = (items[n - 2].time, items[n - 1].time);
            assert(x <= y);
            lemma_calendar_step(clock, granularity, first, last, x, y);
        }
    }
}

/// Buckets of a calendar hold every item that they gather, on a clock that goes through its days one
/// after another.
pub proof fn calendar_buckets_are_steady(
    clock: ClockModel,
    granularity: Granularity,
    first: int,
    last: int,
    items: Seq<Agg>,
)
    requires
        !(granularity is SubDay),
        rs::counts(granularity),
        keeps_days(clock.zone(), first, last),
        laws::ordered(items),
        all_within(clock.zone(), granularity, first, last, items),
    ensures
        laws::steady(clock, granularity, items),
{
    assert forall|i: int| 0 <= i < items.len() implies #[trigger] laws::in_step(
        clock,
        granularity,
        items,
        i,
    ) by {
        assert(within(clock.zone(), granularity, first, last, items[i].time));
        lemma_calendar_bucket(clock, granularity, first, last, items[i].time);
        lemma_calendar_run(clock, granularity, first, last, items, i);
        if i > 0 {
            assert(within(clock.zone(), granularity, first, last, items[i - 1].time));
            assert(items[i - 1].time <= items[i].time);
            lemma_calendar_step(
                clock,
                granularity,
                first,
                last,
                items[i - 1].time,
                items[i].time,
            );
        } else {
            assert(items.take(0) =~= Seq::<Agg>::empty());
        }
    }
}

/// A calendar bucket starts in itself.
pub proof fn calendar_buckets_nest_in_themselves(
    clock: ClockModel,
    granularity: Granularity,
    first: int,
    last: int,
    items: Seq<Agg>,
)
    requires
        !(granularity is SubDay),
        rs::counts(granularity),
        keeps_days(clock.zone(), first, last),
        all_within(clock.zone(), granularity, first, last, items),
    ensures
        laws::nested(clock, granularity, granularity, items),
{
    let zone = clock.zone();
    assert forall|i: int| 0 <= i < items.len() implies clock.bucket(
        granularity,
        clock.bucket(granularity, (#[trigger] items[i]).time),
    ) == clock.bucket(granularity, items[i].time) by {
        assert(within(zone, granularity, first, last, items[i].time));
        assert(lies_in_its_day(zone, first, last, items[i].time));
        lemma_calendar_bucket(clock, granularity, first, last, items[i].time);
        let date = zone_date(zone, items[i].time);
        let from = rs::floor_date(date, granularity)->0;
        calendar_buckets_are_stretches_of_dates(date, from, granularity);
    }
}

// ---- bars ------------------------------------------------------------------------------

/// Whether a time is that of the bucket of one of the items.
pub open spec fn starts_a_bucket(
    clock: ClockModel,
    granularity: Granularity,
    items: Seq<Agg>,
    time: int,
) -> bool {
    exists|k: int|
        0 <= k < items.len() && clock.bucket(granularity, (#[trigger] items[k]).time) == time
}

/// Whether bars ascend in time, each from the start of an item's bucket.
spec fn bars_start_buckets(
    clock: ClockModel,
    granularity: Granularity,
    items: Seq<Agg>,
    bars: Seq<Bar>,
) -> bool {
    &&& laws::ascending_times(bars)
    &&& forall|i: int|
        0 <= i < bars.len() ==> starts_a_bucket(
            clock,
            granularity,
            items,
            (#[trigger] bars[i]).time as int,
        )
}

proof fn lemma_steady_bars(clock: ClockModel, granularity: Granularity, items: Seq<Agg>, n: int)
    requires
        laws::ordered(items),
        laws::steady(clock, granularity, items),
        0 <= n <= items.len(),
    ensures
        ({
            let (state, done) = laws::feed(clock, granularity, laws::fresh(), items.take(n));
            &&& bars_start_buckets(clock, granularity, items, done + laws::flush(state))
            &&& n > 0 ==> state.run is Some && 0 <= state.run->0.time <= u32::MAX
            &&& n == 0 ==> state.run is None
        }),
    decreases n,
{
    let g = granularity;
    let none = Seq::<Bar>::empty();
    if n == 0 {
        assert(items.take(0) =~= Seq::<Agg>::empty());
        assert(none + laws::flush(laws::fresh()) =~= none);
    } else {
        let x = items[n - 1];
        let head = items.take(n - 1);
        lemma_steady_bars(clock, g, items, n - 1);
        assert(items.take(n).drop_last() =~= head);
        assert(items.take(n).last() == x);
        assert(laws::in_step(clock, g, items, n - 1));
        let (before, done) = laws::feed(clock, g, laws::fresh(), head);
        let (after, all) = laws::feed(clock, g, laws::fresh(), items.take(n));
        let old_bars = done + laws::flush(before);
        let bars = all + laws::flush(after);
        let start = clock.bucket(g, x.time);
        assert(starts_a_bucket(clock, g, items, start)) by {
            assert(clock.bucket(g, items[n - 1].time) == start);
        }
        if before.run is Some && x.time < before.end {
            assert(all =~= done);
            let m = done.len() as int;
            assert(old_bars[m].time == bars[m].time);
            assert forall|i: int| 0 <= i < bars.len() implies (#[trigger] bars[i]).time
                == old_bars[i].time by {
                if i < m {
                    assert(bars[i] == old_bars[i]);
                }
            }
        } else {
            assert(all =~= old_bars);
            let m = old_bars.len() as int;
            assert(bars[m].time == start);
            assert forall|i: int| 0 <= i < m implies (#[trigger] bars[i]) == old_bars[i] by {}
            if m > 0 {
                assert(old_bars[m - 1].time < start);
            }
            assert forall|i: int, j: int| 0 <= i < j < bars.len() implies (#[trigger] bars[i]).time
                < (#[trigger] bars[j]).time by {
                if j == m && i < m - 1 {
                    assert(old_bars[i].time < old_bars[m - 1].time);
                } else if j < m {
                    assert(old_bars[i].time < old_bars[j].time);
                }
            }
        }
    }
}

/// Bars of items that lie in the buckets they are gathered into come in ascending order, each at the
/// start of a bucket.
pub proof fn steady_bars_ascend(clock: ClockModel, granularity: Granularity, items: Seq<Agg>)
    requires
        laws::ordered(items),
        laws::steady(clock, granularity, items),
    ensures
        ({
            let bars = rs::bars_of(clock, granularity, items);
            &&& laws::ascending_times(bars)
            &&& forall|i: int|
                0 <= i < bars.len() ==> starts_a_bucket(
                    clock,
                    granularity,
                    items,
                    (#[trigger] bars[i]).time as int,
                )
            &&& laws::ordered(rs::bar_aggs(bars))
        }),
{
    let bars = rs::bars_of(clock, granularity, items);
    let n = items.len() as int;
    lemma_steady_bars(clock, granularity, items, n);
    assert(items.take(n) =~= items);
    laws::pushing_gives_the_bars(clock, granularity, items);
    let aggs = rs::bar_aggs(bars);
    assert forall|i: int| 0 <= i < aggs.len() implies 0 <= (#[trigger] aggs[i]).time
        < u32::MAX by {
        assert(aggs[i].time == bars[i].time);
        let k = choose|k: int|
            0 <= k < items.len() && clock.bucket(granularity, (#[trigger] items[k]).time)
                == bars[i].time;
        assert(laws::in_step(clock, granularity, items, k));
    }
    assert forall|i: int, j: int| 0 <= i < j < aggs.len() implies (#[trigger] aggs[i]).time <= (
    #[trigger] aggs[j]).time by {
        assert(aggs[i].time == bars[i].time && aggs[j].time == bars[j].time);
    }
}

// ---- sessions --------------------------------------------------------------------------

/// Whether an instant falls after its day's open, which comes after the day's midnight, and its
/// bucket ends by the end of the day.
pub open spec fn in_hours(
    session: SessionModel,
    secs: u32,
    first: int,
    last: int,
    time: int,
) -> bool {
    let zone = session.zone;
    let day = zone_date(zone, time).number();
    &&& day_start(zone, first)->0 <= time < day_start(zone, last)->0
    &&& session.open_at(time) matches Some(open) && day_start(zone, day)->0 <= open <= time
    &&& ClockModel::Session(session).bucket(Granularity::SubDay(secs), time) + secs <= day_start(
        zone,
        day + 1,
    )->0
}

pub open spec fn all_in_hours(
    session: SessionModel,
    secs: u32,
    first: int,
    last: int,
    items: Seq<Agg>,
) -> bool {
    forall|i: int|
        0 <= i < items.len() ==> in_hours(session, secs, first, last, (#[trigger] items[i]).time)
}

/// Whether every instant within a session's hours, on the days from `first` up to `last`, falls after
/// its day's open, with a bucket that ends by the end of the day.
pub open spec fn keeps_hours(session: SessionModel, secs: u32, first: int, last: int) -> bool {
    forall|t: int|
        day_start(session.zone, first)->0 <= t < day_start(session.zone, last)->0
            && #[trigger] session.holds(t) ==> in_hours(session, secs, first, last, t)
}

/// A bucket counted from the open starts between the open and its instant, on the same day.
proof fn lemma_session_bucket(
    session: SessionModel,
    secs: u32,
    first: int,
    last: int,
    time: int,
)
    requires
        secs > 0,
        keeps_days(session.zone, first, last),
        in_hours(session, secs, first, last, time),
        0 <= time < u32::MAX,
    ensures
        ({
            let start = ClockModel::Session(session).bucket(Granularity::SubDay(secs), time);
            &&& rs::open_floor(session, secs as int, time) is Some
            &&& session.open_at(time)->0 <= start <= time
            &&& zone_date(session.zone, start) == zone_date(session.zone, time)
            &&& day_start(session.zone, first)->0 <= start < day_start(session.zone, last)->0
        }),
{
    let zone = session.zone;
    let open = session.open_at(time)->0 as int;
    let s = secs as int;
    let q = (time - open) / s;
    vstd::arithmetic::div_mod::lemma_fundamental_div_mod(time - open, s);
    vstd::arithmetic::mul::lemma_mul_is_commutative(s, q);
    assert(q >= 0) by (nonlinear_arith)
        requires
            q == (time - open) / s,
            time >= open,
            s > 0,
    ;
    assert(0 <= q * s) by (nonlinear_arith)
        requires
            q >= 0,
            s > 0,
    ;
    let start = open + q * s;
    assert(open <= start <= time);
    assert(lies_in_its_day(zone, first, last, time));
    let day = zone_date(zone, time).number();
    crate::civil::lemma_date_of(zone_date(zone, time));
    lemma_day(zone, first, last, day, start);
    assert(day_start(zone, first)->0 <= day_start(zone, day)->0) by {
        if first < day {
            assert(day_start(zone, first)->0 < day_start(zone, day)->0);
        }
    }
}

/// Buckets counted from a session's open hold every item that they gather, and lie in the calendar
/// buckets of their items.
pub proof fn session_hours_are_steady(
    session: SessionModel,
    secs: u32,
    granularity: Granularity,
    first: int,
    last: int,
    items: Seq<Agg>,
)
    requires
        secs > 0,
        !(granularity is SubDay),
        rs::counts(granularity),
        keeps_days(session.zone, first, last),
        laws::ordered(items),
        all_in_hours(session, secs, first, last, items),
        all_within(session.zone, granularity, first, last, items),
    ensures
        laws::steady(ClockModel::Session(session), Granularity::SubDay(secs), items),
        laws::nested(
            ClockModel::Session(session),
            Granularity::SubDay(secs),
            granularity,
            items,
        ),
{
    let clock = ClockModel::Session(session);
    let g = Granularity::SubDay(secs);
    assert(laws::days_part(session, secs, items)) by {
        assert forall|i: int| 0 < i < items.len() implies {
            ||| laws::same_grid(session, secs, items[i - 1].time, (#[trigger] items[i]).time)
            ||| items[i].time >= clock.bucket_end(g, clock.bucket(g, items[i - 1].time))
        } by {
            let (x, y) = (items[i - 1].time, items[i].time);
            assert(x <= y);
            lemma_days_part(session, secs, first, last, x, y);
        }
    }
    laws::session_buckets_are_steady(session, secs, items);
    assert forall|i: int| 0 <= i < items.len() implies clock.bucket(
        granularity,
        clock.bucket(g, (#[trigger] items[i]).time),
    ) == clock.bucket(granularity, items[i].time) by {
        let time = items[i].time;
        assert(in_hours(session, secs, first, last, time));
        assert(within(session.zone, granularity, first, last, time));
        lemma_session_bucket(session, secs, first, last, time);
        lemma_same_date(clock, granularity, first, last, clock.bucket(g, time), time);
    }
}

/// Of two instants in a session's hours, the later one is counted from the same open, or comes after
/// the bucket of the earlier one has ended.
proof fn lemma_days_part(
    session: SessionModel,
    secs: u32,
    first: int,
    last: int,
    x: int,
    y: int,
)
    requires
        secs > 0,
        keeps_days(session.zone, first, last),
        in_hours(session, secs, first, last, x),
        in_hours(session, secs, first, last, y),
        0 <= x <= y < u32::MAX,
    ensures
        ({
            let clock = ClockModel::Session(session);
            let g = Granularity::SubDay(secs);
            ||| laws::same_grid(session, secs, x, y)
            ||| y >= clock.bucket_end(g, clock.bucket(g, x))
        }),
{
    let zone = session.zone;
    lemma_session_bucket(session, secs, first, last, x);
    lemma_session_bucket(session, secs, first, last, y);
    assert(lies_in_its_day(zone, first, last, x) && lies_in_its_day(zone, first, last, y));
    let (dx, dy) = (zone_date(zone, x), zone_date(zone, y));
    if dx != dy {
        crate::civil::lemma_date_of(dx);
        crate::civil::lemma_date_of(dy);
        if dy.number() + 1 < dx.number() {
            assert(day_start(zone, dy.number() + 1)->0 < day_start(zone, dx.number())->0);
        }
        assert(dx.number() < dy.number());
        if dx.number() + 1 < dy.number() {
            assert(day_start(zone, dx.number() + 1)->0 < day_start(zone, dy.number())->0);
        }
        assert(day_start(zone, dx.number() + 1) is Some);
    }
}

/// Instants of the same date lie in the same calendar bucket.
proof fn lemma_same_date(
    clock: ClockModel,
    granularity: Granularity,
    first: int,
    last: int,
    x: int,
    y: int,
)
    requires
        !(granularity is SubDay),
        rs::counts(granularity),
        keeps_days(clock.zone(), first, last),
        day_start(clock.zone(), first)->0 <= x < day_start(clock.zone(), last)->0,
        within(clock.zone(), granularity, first, last, y),
        zone_date(clock.zone(), x) == zone_date(clock.zone(), y),
    ensures
        within(clock.zone(), granularity, first, last, x),
        clock.bucket(granularity, x) == clock.bucket(granularity, y),
{
    lemma_calendar_bucket(clock, granularity, first, last, x);
    lemma_calendar_bucket(clock, granularity, first, last, y);
}

/// Whether buckets are counted from a session's open, in the hours of which the items fall.
pub(crate) open spec fn in_a_session(
    clock: ClockModel,
    stored_at: Granularity,
    first: int,
    last: int,
    items: Seq<Agg>,
) -> bool {
    match (clock, stored_at) {
        (ClockModel::Session(session), Granularity::SubDay(secs)) => secs > 0 && all_in_hours(
            session,
            secs,
            first,
            last,
            items,
        ),
        _ => false,
    }
}

/// The bars of a calendar bucket, and those counted from a session's open, lie where their items do.
pub(crate) proof fn lemma_bars_within(
    clock: ClockModel,
    stored_at: Granularity,
    granularity: Granularity,
    first: int,
    last: int,
    items: Seq<Agg>,
)
    requires
        !(granularity is SubDay),
        rs::counts(granularity),
        keeps_days(clock.zone(), first, last),
        laws::ordered(items),
        laws::steady(clock, stored_at, items),
        all_within(clock.zone(), granularity, first, last, items),
        stored_at == granularity || in_a_session(clock, stored_at, first, last, items),
    ensures
        laws::ordered(rs::bar_aggs(rs::bars_of(clock, stored_at, items))),
        all_within(
            clock.zone(),
            granularity,
            first,
            last,
            rs::bar_aggs(rs::bars_of(clock, stored_at, items)),
        ),
{
    let zone = clock.zone();
    let bars = rs::bars_of(clock, stored_at, items);
    let aggs = rs::bar_aggs(bars);
    steady_bars_ascend(clock, stored_at, items);
    assert forall|i: int| 0 <= i < aggs.len() implies within(
        zone,
        granularity,
        first,
        last,
        (#[trigger] aggs[i]).time,
    ) by {
        assert(aggs[i].time == bars[i].time);
        assert(starts_a_bucket(clock, stored_at, items, bars[i].time as int));
        let k = choose|k: int|
            0 <= k < items.len() && clock.bucket(stored_at, (#[trigger] items[k]).time)
                == bars[i].time;
        let time = items[k].time;
        assert(within(zone, granularity, first, last, time));
        lemma_start_within(clock, stored_at, granularity, first, last, time, items, k);
    }
}

proof fn lemma_start_within(
    clock: ClockModel,
    stored_at: Granularity,
    granularity: Granularity,
    first: int,
    last: int,
    time: int,
    items: Seq<Agg>,
    k: int,
)
    requires
        !(granularity is SubDay),
        rs::counts(granularity),
        keeps_days(clock.zone(), first, last),
        0 <= k < items.len(),
        items[k].time == time,
        0 <= time < u32::MAX,
        within(clock.zone(), granularity, first, last, time),
        stored_at == granularity || in_a_session(clock, stored_at, first, last, items),
    ensures
        within(clock.zone(), granularity, first, last, clock.bucket(stored_at, time)),
{
    let zone = clock.zone();
    let start = clock.bucket(stored_at, time);
    if stored_at == granularity {
        lemma_calendar_bucket(clock, granularity, first, last, time);
        assert(lies_in_its_day(zone, first, last, time));
        let date = zone_date(zone, time);
        let from = rs::floor_date(date, granularity)->0;
        calendar_buckets_are_stretches_of_dates(date, from, granularity);
        assert(day_start(zone, first)->0 <= start) by {
            if first < from.number() {
                assert(day_start(zone, first)->0 < day_start(zone, from.number())->0);
            }
        }
    } else if let ClockModel::Session(session) = clock {
        if let Granularity::SubDay(secs) = stored_at {
            assert(in_hours(session, secs, first, last, items[k].time));
            lemma_session_bucket(session, secs, first, last, time);
            lemma_same_date(clock, granularity, first, last, start, time);
        }
    }
}

} // verus!
