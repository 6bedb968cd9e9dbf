//! Incrementally maintained bar sidecars.
//!
//! Resampling a decade of ticks into daily bars costs ~50 s for a 1.5 GB tick file, and a research
//! loop pays it on every run. Materializing the bars once into `<SYMBOL>.<interval>.bars.fwob`
//! turns that into a seek, but only helps if refreshing is cheap: an archive that grows daily
//! cannot afford a full rebuild each time. Bars of regular hours are other bars, and stand in
//! `<SYMBOL>.<interval>.rth.bars.fwob`.
//!
//! A refresh appends only what is missing. It re-derives the **final** bucket rather than trusting
//! it, because a sidecar written mid-session captures a partial bar — and a partial bar that
//! silently persists is a data error no downstream check would catch.
//!
//! Sidecars store **raw** bars. Corporate-action adjustment is applied in memory at read time (see
//! [`crate::adjust`]), so a newly discovered split never invalidates a materialized file.
use vstd::prelude::*;

use crate::aggregate::Agg;
use crate::calendar_laws as calendar;
use crate::feed::TickQuery;
use crate::interval::{Granularity, Interval};
use crate::model::Bar;
use crate::resample as rs;
use crate::resample::ClockModel;
use crate::resample_laws as laws;

verus! {

/// The name of a symbol's materialized bars at one interval, of all hours or of regular ones.
pub open spec fn name_of(symbol: Seq<char>, interval: Interval, use_rth: bool) -> Seq<char> {
    symbol + "."@ + interval.token() + if use_rth {
        ".rth.bars.fwob"@
    } else {
        ".bars.fwob"@
    }
}

/// Filename for a symbol's materialized bars at one interval. Regular hours are part of it, since
/// they change the bars.
pub fn sidecar_name(symbol: &str, interval: Interval, use_rth: bool) -> (r: String)
    ensures
        r@ == name_of(symbol@, interval, use_rth),
{
    let mut out = symbol.to_owned();
    out.append(".");
    out.append(interval.label().as_str());
    if use_rth {
        out.append(".rth.bars.fwob");
    } else {
        out.append(".bars.fwob");
    }
    out
}

/// A symbol's sidecars have different names where they hold different bars: a name tells the interval
/// and the hours.
pub proof fn sidecar_names_tell_apart(
    symbol: Seq<char>,
    a: Interval,
    a_rth: bool,
    b: Interval,
    b_rth: bool,
)
    requires
        a.valid(),
        b.valid(),
        name_of(symbol, a, a_rth) == name_of(symbol, b, b_rth),
    ensures
        a_rth == b_rth,
        a.units() == b.units(),
        a.kind() == b.kind(),
{
    reveal_strlit(".");
    reveal_strlit(".bars.fwob");
    reveal_strlit(".rth.bars.fwob");
    let (x, y) = (a.token(), b.token());
    let (left, right) = (name_of(symbol, a, a_rth), name_of(symbol, b, b_rth));
    let m: int = symbol.len() as int + 1;
    lemma_no_dot(a);
    lemma_no_dot(b);
    crate::interval::label_parses_back(a);
    crate::interval::label_parses_back(b);
    // The first dot behind the symbol ends the interval.
    assert(left[m + x.len()] == '.' && right[m + y.len()] == '.');
    if x.len() < y.len() {
        assert(right[m + x.len()] == y[x.len() as int]);
    } else if y.len() < x.len() {
        assert(left[m + y.len()] == x[y.len() as int]);
    }
    assert(x =~= y) by {
        assert forall|i: int| 0 <= i < x.len() implies x[i] == y[i] by {
            assert(left[m + i] == x[i] && right[m + i] == y[i]);
        }
    }
    assert(".bars.fwob"@.len() == 10 && ".rth.bars.fwob"@.len() == 14);
    assert(left.len() == right.len());
}

proof fn lemma_no_dot(interval: Interval)
    ensures
        forall|i: int| 0 <= i < interval.token().len() ==> #[trigger] interval.token()[i] != '.',
{
    let digits = crate::text::decimal(interval.units());
    let token = interval.token();
    crate::text::lemma_decimal_digits(interval.units());
    assert forall|i: int| 0 <= i < token.len() implies #[trigger] token[i] != '.' by {
        if i < digits.len() {
            assert(token[i] == digits[i]);
            assert(crate::text::is_digit(digits[i]));
        } else {
            assert(token[i] == crate::interval::unit_suffix(interval.kind())[i - digits.len()]);
        }
    }
}

/// A name inside a directory: the name alone for an absolute name or an empty directory.
pub open spec fn inside(dir: Seq<char>, name: Seq<char>) -> Seq<char> {
    if dir.len() == 0 || (name.len() > 0 && name[0] == '/') {
        name
    } else if dir.last() == '/' {
        dir + name
    } else {
        dir + "/"@ + name
    }
}

/// Path to a symbol's sidecar inside `dir`.
pub fn sidecar_path(dir: &str, symbol: &str, interval: Interval, use_rth: bool) -> (r: String)
    ensures
        r@ == inside(dir@, name_of(symbol@, interval, use_rth)),
{
    let name = sidecar_name(symbol, interval, use_rth);
    let dir_length: usize = dir.unicode_len();
    let name_length: usize = name.as_str().unicode_len();
    if dir_length == 0 || (name_length > 0 && name.as_str().get_char(0) == '/') {
        return name;
    }
    let mut out = dir.to_owned();
    if dir.get_char(dir_length - 1) != '/' {
        out.append("/");
    }
    out.append(name.as_str());
    out
}

/// What a refresh did.
#[derive(Debug)]
pub struct RefreshOutcome {
    pub symbol: String,
    pub path: String,
    /// Bars appended (for a rebuild, the whole series).
    pub appended: u64,
    /// Bars in the file afterwards.
    pub total: u64,
    /// True when the file was created or rewritten from scratch.
    pub rebuilt: bool,
    /// Timestamp of the last bar afterwards.
    pub last_time: Option<u32>,
}

/// How a sidecar is brought up to date, as far as its last stored bar decides.
pub struct RefreshPlan {
    /// The last stored bar, which is dropped from the file first: it may have been written while
    /// its session was still open.
    pub trim: Option<u32>,
    /// What is read of the source: from the dropped bar on, never before the caller's own window.
    pub scan: TickQuery,
    /// Whether the file is made from scratch.
    pub rebuilt: bool,
}

/// Where a scan starts: the later of the caller's start and the last stored bar.
pub open spec fn scan_start(start: Option<u32>, resume: Option<u32>) -> Option<u32> {
    match (start, resume) {
        (Some(a), Some(b)) => Some(
            if a >= b {
                a
            } else {
                b
            },
        ),
        (Some(a), None) => Some(a),
        (None, b) => b,
    }
}

/// Plans a refresh from the time of the last stored bar, `None` when the sidecar is absent or empty.
/// `query`'s `start`/`end` bound the source scan; its session, if any, filters ticks exactly as it
/// does elsewhere.
pub fn refresh_sidecar(resume: Option<u32>, query: TickQuery) -> (r: RefreshPlan)
    ensures
        r.trim == resume,
        r.rebuilt == (resume is None),
        r.scan.start == scan_start(query.start, resume),
        r.scan.end == query.end,
        r.scan.session == query.session,
{
    let start: Option<u32> = match (query.start, resume) {
        (Some(a), Some(b)) => if a >= b {
            Some(a)
        } else {
            Some(b)
        },
        (Some(a), None) => Some(a),
        (None, b) => b,
    };
    RefreshPlan {
        trim: resume,
        scan: TickQuery { start, end: query.end, session: query.session },
        rebuilt: resume.is_none(),
    }
}

/// What is done to the file with the bars of a scan.
#[derive(Debug, Clone, Copy, PartialEq, Eq, Structural)]
pub enum SidecarWrite {
    /// The file is made new, with the bars, of which there may be none: an absent file would mask
    /// an empty source.
    Create,
    /// The bars are appended.
    Append,
    /// Nothing.
    Leave,
}

/// The bars at or after a time.
pub open spec fn kept_from(bars: Seq<Bar>, time: Option<u32>) -> Seq<Bar>
    decreases bars.len(),
{
    if bars.len() == 0 {
        Seq::empty()
    } else if time matches Some(t) && bars.last().time < t {
        kept_from(bars.drop_last(), time)
    } else {
        kept_from(bars.drop_last(), time).push(bars.last())
    }
}

impl RefreshPlan {
    /// The bars of a scan that are written, and how: none from before the dropped bar, which guards
    /// against a scan giving a bucket again that is already stored.
    pub fn finish(&self, bars: &Vec<Bar>) -> (r: (SidecarWrite, Vec<Bar>))
        ensures
            r.1@ == kept_from(bars@, self.trim),
            r.0 == if self.rebuilt {
                SidecarWrite::Create
            } else if r.1@.len() > 0 {
                SidecarWrite::Append
            } else {
                SidecarWrite::Leave
            },
    {
        let mut out: Vec<Bar> = Vec::new();
        let mut i: usize = 0;
        while i < bars.len()
            invariant
                i <= bars.len(),
                out@ == kept_from(bars@.take(i as int), self.trim),
            decreases bars.len() - i,
        {
            let bar = bars[i];
            proof {
                assert(bars@.take(i + 1).drop_last() =~= bars@.take(i as int));
                assert(bars@.take(i + 1).last() == bar);
            }
            let early = match self.trim {
                Some(time) => bar.time < time,
                None => false,
            };
            if !early {
                out.push(bar);
            }
            i += 1;
        }
        assert(bars@.take(i as int) =~= bars@);
        let write = if self.rebuilt {
            SidecarWrite::Create
        } else if out.len() > 0 {
            SidecarWrite::Append
        } else {
            SidecarWrite::Leave
        };
        (write, out)
    }

    /// Reports a refresh, from what was left of the file once the last bar was dropped from it, how
    /// many bars and the time of the last one, and from the bars that were then written. Of a file
    /// made from scratch nothing is left.
    pub fn outcome(
        &self,
        symbol: String,
        path: String,
        left: u64,
        left_last: Option<u32>,
        written: &Vec<Bar>,
    ) -> (r: RefreshOutcome)
        requires
            left + written@.len() <= u64::MAX,
        ensures
            r.symbol == symbol,
            r.path == path,
            r.appended == written@.len(),
            r.total == written@.len() + if self.rebuilt {
                0
            } else {
                left
            },
            r.rebuilt == self.rebuilt,
            r.last_time == if written@.len() > 0 {
                Some(written@.last().time)
            } else if self.rebuilt {
                None
            } else {
                left_last
            },
    {
        let appended: u64 = written.len() as u64;
        RefreshOutcome {
            symbol,
            path,
            appended,
            total: if self.rebuilt {
                appended
            } else {
                left + appended
            },
            rebuilt: self.rebuilt,
            last_time: if written.len() > 0 {
                Some(written[written.len() - 1].time)
            } else if self.rebuilt {
                None
            } else {
                left_last
            },
        }
    }
}

// ---- refreshing is rebuilding ------------------------------------------------------------

/// The bars of a file once those at a time are dropped from it.
pub open spec fn without(bars: Seq<Bar>, time: u32) -> Seq<Bar>
    decreases bars.len(),
{
    if bars.len() == 0 {
        Seq::empty()
    } else if bars.last().time == time {
        without(bars.drop_last(), time)
    } else {
        without(bars.drop_last(), time).push(bars.last())
    }
}

/// What a sidecar holds after a refresh whose scan gave some bars.
pub open spec fn refreshed(stored: Seq<Bar>, fresh: Seq<Bar>) -> Seq<Bar> {
    if stored.len() == 0 {
        fresh
    } else {
        without(stored, stored.last().time) + kept_from(fresh, Some(stored.last().time))
    }
}

/// The items that a scan from a time takes in.
pub open spec fn scanned(items: Seq<Agg>, start: int) -> Seq<Agg>
    decreases items.len(),
{
    if items.len() == 0 {
        Seq::empty()
    } else if items.last().time >= start {
        scanned(items.drop_last(), start).push(items.last())
    } else {
        scanned(items.drop_last(), start)
    }
}

/// Whether an item opens a bucket: nothing is open before it, or it comes at or after the open
/// bucket's end.
pub open spec fn opens(clock: ClockModel, granularity: Granularity, items: Seq<Agg>, p: int) -> bool {
    let state = laws::feed(clock, granularity, laws::fresh(), items.take(p)).0;
    state.run is None || items[p].time >= state.end
}

/// The bars before an item that opens a bucket, and those from it on, are the bars of the whole.
pub proof fn bars_part_at_an_opening(
    clock: ClockModel,
    granularity: Granularity,
    items: Seq<Agg>,
    p: int,
)
    requires
        0 <= p < items.len(),
        opens(clock, granularity, items, p),
    ensures
        rs::bars_of(clock, granularity, items) == rs::bars_of(clock, granularity, items.take(p))
            + rs::bars_of(clock, granularity, items.skip(p)),
{
    let (head, tail) = (items.take(p), items.skip(p));
    assert(items =~= head + tail);
    laws::pushing_gives_the_bars(clock, granularity, items);
    laws::pushing_gives_the_bars(clock, granularity, head);
    laws::pushing_gives_the_bars(clock, granularity, tail);
    laws::feeding_in_pieces(clock, granularity, laws::fresh(), head, tail);
    laws::feed_opens_at_once(clock, granularity, head);
    let (mid, first) = laws::feed(clock, granularity, laws::fresh(), head);
    let (end, second) = laws::feed(clock, granularity, mid, tail);
    let (end2, fresh) = laws::feed(clock, granularity, laws::fresh(), tail);
    lemma_feed_from_opening(clock, granularity, mid, tail);
    assert(first + second + laws::flush(end) =~= (first + laws::flush(mid)) + (fresh
        + laws::flush(end2)));
}

/// Feeding from an item that opens a bucket closes what was open and then goes on as from nothing.
proof fn lemma_feed_from_opening(
    clock: ClockModel,
    granularity: Granularity,
    state: rs::RunState,
    items: Seq<Agg>,
)
    requires
        items.len() > 0,
        state.run is None || items[0].time >= state.end,
    ensures
        ({
            let (a, bars) = laws::feed(clock, granularity, state, items);
            let (b, fresh) = laws::feed(clock, granularity, laws::fresh(), items);
            a == b && bars == laws::flush(state) + fresh
        }),
    decreases items.len(),
{
    let init = items.drop_last();
    if init.len() == 0 {
        reveal_with_fuel(laws::feed, 2);
        let none = Seq::<Bar>::empty();
        assert(none + none =~= none);
        assert(laws::flush(state) + none =~= laws::flush(state));
        assert(none + laws::flush(state) =~= laws::flush(state));
    } else {
        assert(init[0] == items[0]);
        lemma_feed_from_opening(clock, granularity, state, init);
        let (before, fresh) = laws::feed(clock, granularity, laws::fresh(), init);
        let closed = rs::step(clock, granularity, before, items.last()).1;
        let last = match closed {
            Some(bar) => seq![bar],
            None => Seq::empty(),
        };
        assert((laws::flush(state) + fresh) + last =~= laws::flush(state) + (fresh + last));
    }
}

/// The item that opened the bucket of the last of the first `n` items.
spec fn last_opening(clock: ClockModel, granularity: Granularity, items: Seq<Agg>, n: int) -> int
    decreases n,
{
    if n <= 1 || opens(clock, granularity, items, n - 1) {
        n - 1
    } else {
        last_opening(clock, granularity, items, n - 1)
    }
}

/// What holds after the first `n` items of a steady stretch: the open run, and those before it.
proof fn lemma_open_run(clock: ClockModel, granularity: Granularity, items: Seq<Agg>, n: int)
    requires
        laws::steady(clock, granularity, items),
        laws::ordered(items),
        0 < n <= items.len(),
    ensures
        ({
            let p = last_opening(clock, granularity, items, n);
            let (state, done) = laws::feed(clock, granularity, laws::fresh(), items.take(n));
            let b = clock.bucket(granularity, items[p].time);
            &&& 0 <= p < n
            &&& opens(clock, granularity, items, p)
            &&& state.run is Some
            &&& state.run->0.time == b
            &&& state.end == clock.bucket_end(granularity, b)
            &&& 0 <= b <= items[p].time
            &&& clock.bucket(granularity, items[0].time) <= b
            &&& forall|i: int| 0 <= i < done.len() ==> clock.bucket(granularity, items[0].time) <= (
            #[trigger] done[i]).time < b
            &&& rs::bars_of(clock, granularity, items.subrange(p, n)).len() == 1
        }),
    decreases n,
{
    let g = granularity;
    let p = last_opening(clock, g, items, n);
    let x = items[n - 1];
    let head = items.take(n - 1);
    let all = items.take(n);
    assert(all.drop_last() =~= head);
    assert(all.last() == x);
    assert(laws::in_step(clock, g, items, n - 1));
    laws::feed_opens_at_once(clock, g, head);
    if n > 1 {
        lemma_open_run(clock, g, items, n - 1);
    }
    let (before, done) = laws::feed(clock, g, laws::fresh(), head);
    if n <= 1 || opens(clock, g, items, n - 1) {
        let one = items.subrange(n - 1, n);
        assert(one.drop_first() =~= Seq::<Agg>::empty());
        if n > 1 {
            let after = done + seq![before.run->0.bar()];
            assert forall|i: int| 0 <= i < after.len() implies clock.bucket(g, items[0].time) <= (
            #[trigger] after[i]).time < clock.bucket(g, x.time) by {
                if i < done.len() {
                    assert(after[i] == done[i]);
                }
            }
        }
    } else {
        assert(items.subrange(p, n).drop_last() =~= items.subrange(p, n - 1));
        lemma_single_bar(clock, g, items, p, n);
        assert(done + Seq::<Bar>::empty() =~= done);
    }
}

/// The items from an opening up to `n`, none of which opens another bucket, make one bar.
proof fn lemma_single_bar(
    clock: ClockModel,
    granularity: Granularity,
    items: Seq<Agg>,
    p: int,
    n: int,
)
    requires
        0 <= p < n - 1 < items.len(),
        p == last_opening(clock, granularity, items, n - 1),
        opens(clock, granularity, items, p),
        !opens(clock, granularity, items, n - 1),
        rs::bars_of(clock, granularity, items.subrange(p, n - 1)).len() == 1,
    ensures
        rs::bars_of(clock, granularity, items.subrange(p, n)).len() == 1,
{
    let (s, t) = (items.subrange(p, n), items.subrange(p, n - 1));
    let head = items.take(p);
    assert(s.drop_last() =~= t);
    assert(s.last() == items[n - 1]);
    assert(items.take(n - 1) =~= head + t);
    laws::pushing_gives_the_bars(clock, granularity, s);
    laws::pushing_gives_the_bars(clock, granularity, t);
    laws::feeding_in_pieces(clock, granularity, laws::fresh(), head, t);
    let mid = laws::feed(clock, granularity, laws::fresh(), head).0;
    laws::feed_opens_at_once(clock, granularity, t);
    laws::feed_opens_at_once(clock, granularity, head);
    assert(t[0] == items[p]);
    lemma_feed_from_opening(clock, granularity, mid, t);
    let (state, done) = laws::feed(clock, granularity, laws::fresh(), t);
    assert(done.len() == 0);
    assert(done + Seq::<Bar>::empty() =~= done);
}

proof fn lemma_scanned(items: Seq<Agg>, start: int, p: int)
    requires
        0 <= p <= items.len(),
        forall|i: int| 0 <= i < p ==> (#[trigger] items[i]).time < start,
        forall|i: int| p <= i < items.len() ==> (#[trigger] items[i]).time >= start,
    ensures
        scanned(items, start) == items.skip(p),
    decreases items.len(),
{
    if items.len() > 0 {
        let init = items.drop_last();
        let n = items.len() - 1;
        if p == items.len() {
            assert(items[n].time < start);
            assert forall|i: int| 0 <= i < n implies (#[trigger] init[i]).time < start by {
                assert(items[i].time < start);
            }
            lemma_scanned(init, start, n);
            assert(init.skip(n) =~= items.skip(p));
        } else {
            assert(items[n].time >= start);
            assert forall|i: int| 0 <= i < p implies (#[trigger] init[i]).time < start by {
                assert(items[i].time < start);
            }
            assert forall|i: int| p <= i < n implies (#[trigger] init[i]).time >= start by {
                assert(items[i].time >= start);
            }
            lemma_scanned(init, start, p);
            assert(init.skip(p).push(items.last()) =~= items.skip(p));
        }
    } else {
        assert(items.skip(p) =~= Seq::<Agg>::empty());
    }
}

proof fn lemma_without(bars: Seq<Bar>, time: u32)
    requires
        forall|i: int| 0 <= i < bars.len() ==> (#[trigger] bars[i]).time != time,
    ensures
        without(bars, time) == bars,
    decreases bars.len(),
{
    if bars.len() > 0 {
        let init = bars.drop_last();
        assert(bars[bars.len() - 1].time != time);
        assert forall|i: int| 0 <= i < init.len() implies (#[trigger] init[i]).time != time by {
            assert(bars[i].time != time);
        }
        lemma_without(init, time);
        assert(init.push(bars.last()) =~= bars);
    } else {
        assert(bars =~= Seq::<Bar>::empty());
    }
}

/// A steady stretch stays steady from an item that opens a bucket.
proof fn lemma_steady_tail(clock: ClockModel, granularity: Granularity, items: Seq<Agg>, p: int)
    requires
        laws::steady(clock, granularity, items),
        0 <= p < items.len(),
        opens(clock, granularity, items, p),
    ensures
        laws::steady(clock, granularity, items.skip(p)),
{
    let tail = items.skip(p);
    let mid = laws::feed(clock, granularity, laws::fresh(), items.take(p)).0;
    assert forall|i: int| 0 <= i < tail.len() implies #[trigger] laws::in_step(
        clock,
        granularity,
        tail,
        i,
    ) by {
        assert(laws::in_step(clock, granularity, items, p + i));
        assert(tail[i] == items[p + i]);
        let part = tail.take(i);
        if i > 0 {
            assert(items.take(p + i) =~= items.take(p) + part);
            laws::feeding_in_pieces(clock, granularity, laws::fresh(), items.take(p), part);
            assert(part[0] == items[p]);
            lemma_feed_from_opening(clock, granularity, mid, part);
        } else {
            assert(part =~= Seq::<Agg>::empty());
        }
    }
}

/// A scan that starts among the items of a bucket finds the same buckets from there on, whatever it
/// missed of the first.
proof fn lemma_late_scan(
    clock: ClockModel,
    granularity: Granularity,
    items: Seq<Agg>,
    k: int,
    j: int,
)
    requires
        laws::steady(clock, granularity, items),
        laws::ordered(items),
        0 <= k < j <= items.len(),
    ensures
        ({
            let whole = laws::feed(clock, granularity, laws::fresh(), items.take(j)).0;
            let (late, done) = laws::feed(
                clock,
                granularity,
                laws::fresh(),
                items.subrange(k, j),
            );
            &&& whole.run is Some && late.run is Some
            &&& late.run->0.time == whole.run->0.time
            &&& late.end == whole.end
            &&& 0 <= late.run->0.time <= u32::MAX
            &&& forall|i: int| 0 <= i < done.len() ==> (#[trigger] done[i]).time < late.run->0.time
        }),
    decreases j - k,
{
    let g = granularity;
    let x = items[j - 1];
    lemma_open_run(clock, g, items, j);
    assert(laws::in_step(clock, g, items, j - 1));
    assert(items.take(j).drop_last() =~= items.take(j - 1));
    assert(items.subrange(k, j).drop_last() =~= items.subrange(k, j - 1));
    assert(items.subrange(k, j).last() == x);
    if j - 1 == k {
        assert(items.subrange(k, k) =~= Seq::<Agg>::empty());
        laws::feed_opens_at_once(clock, g, items.take(j - 1));
        if j - 1 > 0 {
            lemma_open_run(clock, g, items, j - 1);
        }
    } else {
        lemma_late_scan(clock, g, items, k, j - 1);
        let (late, done) = laws::feed(clock, g, laws::fresh(), items.subrange(k, j - 1));
        if x.time >= late.end {
            let after = done + seq![late.run->0.bar()];
            assert forall|i: int| 0 <= i < after.len() implies (#[trigger] after[i]).time
                < clock.bucket(g, x.time) by {
                if i < done.len() {
                    assert(after[i] == done[i]);
                }
            }
        } else {
            assert(done + Seq::<Bar>::empty() =~= done);
        }
    }
}

/// The first item at or after a time.
spec fn first_from(items: Seq<Agg>, start: int) -> int
    decreases items.len(),
{
    if items.len() == 0 {
        0
    } else if items.last().time < start {
        items.len() as int
    } else {
        first_from(items.drop_last(), start)
    }
}

proof fn lemma_first_from(items: Seq<Agg>, start: int)
    requires
        laws::ordered(items),
    ensures
        ({
            let k = first_from(items, start);
            &&& 0 <= k <= items.len()
            &&& forall|i: int| 0 <= i < k ==> (#[trigger] items[i]).time < start
            &&& forall|i: int| k <= i < items.len() ==> (#[trigger] items[i]).time >= start
        }),
    decreases items.len(),
{
    if items.len() > 0 {
        let init = items.drop_last();
        let last = items.len() - 1;
        if items[last].time < start {
            assert forall|i: int| 0 <= i < items.len() implies (#[trigger] items[i]).time
                < start by {
                if i < last {
                    assert(items[i].time <= items[last].time);
                }
            }
        } else {
            assert(laws::ordered(init)) by {
                assert forall|i: int| 0 <= i < init.len() implies 0 <= (#[trigger] init[i]).time
                    < u32::MAX by {
                    assert(init[i] == items[i]);
                }
                assert forall|i: int, j: int| 0 <= i < j < init.len() implies (
                #[trigger] init[i]).time <= (#[trigger] init[j]).time by {
                    assert(init[i] == items[i] && init[j] == items[j]);
                }
            }
            lemma_first_from(init, start);
            let k = first_from(items, start);
            assert forall|i: int| 0 <= i < k implies (#[trigger] items[i]).time < start by {
                assert(init[i] == items[i]);
            }
            assert forall|i: int| k <= i < items.len() implies (#[trigger] items[i]).time
                >= start by {
                if i < last {
                    assert(init[i] == items[i]);
                }
            }
        }
    }
}

proof fn lemma_kept_tail(early: Seq<Bar>, late: Seq<Bar>, time: u32)
    requires
        forall|i: int| 0 <= i < early.len() ==> (#[trigger] early[i]).time < time,
        forall|i: int| 0 <= i < late.len() ==> (#[trigger] late[i]).time >= time,
    ensures
        kept_from(early + late, Some(time)) == late,
    decreases early.len() + late.len(),
{
    let all = early + late;
    if late.len() > 0 {
        assert(all.drop_last() =~= early + late.drop_last());
        assert(all.last() == late[late.len() - 1]);
        lemma_kept_tail(early, late.drop_last(), time);
        assert(late.drop_last().push(late.last()) =~= late);
    } else if early.len() > 0 {
        assert(all.drop_last() =~= early.drop_last() + late);
        assert(all.last() == early[early.len() - 1]);
        lemma_kept_tail(early.drop_last(), late, time);
    } else {
        assert(all =~= late);
    }
}

/// Whether bars all come before a time.
spec fn all_before(bars: Seq<Bar>, time: u32) -> bool {
    forall|i: int| 0 <= i < bars.len() ==> (#[trigger] bars[i]).time < time
}

/// The stored bars of the first `n` items: all but the last are those before the last opening.
proof fn lemma_stored(clock: ClockModel, granularity: Granularity, items: Seq<Agg>, n: int)
    requires
        laws::ordered(items),
        laws::steady(clock, granularity, items),
        0 < n <= items.len(),
    ensures
        ({
            let p = last_opening(clock, granularity, items, n);
            let b = clock.bucket(granularity, items[p].time);
            let stored = rs::bars_of(clock, granularity, items.take(n));
            let early = rs::bars_of(clock, granularity, items.take(p));
            &&& 0 <= p < n
            &&& opens(clock, granularity, items, p)
            &&& 0 <= b <= items[p].time
            &&& stored.len() > 0
            &&& stored.last().time == b
            &&& stored.drop_last() == early
            &&& all_before(early, b as u32)
            &&& rs::bars_of(clock, granularity, items) == early + rs::bars_of(
                clock,
                granularity,
                items.skip(p),
            )
        }),
{
    let g = granularity;
    let part = items.take(n);
    let p = last_opening(clock, g, items, n);
    lemma_open_run(clock, g, items, n);
    laws::pushing_gives_the_bars(clock, g, part);
    let stored = rs::bars_of(clock, g, part);
    let (state, done) = laws::feed(clock, g, laws::fresh(), part);
    assert(stored == done + seq![state.run->0.bar()]);
    assert(items.take(p) =~= part.take(p));
    assert(part.skip(p) =~= items.subrange(p, n));
    assert(opens(clock, g, part, p)) by {
        assert(part[p] == items[p]);
    }
    bars_part_at_an_opening(clock, g, part, p);
    bars_part_at_an_opening(clock, g, items, p);
    assert(stored.drop_last() =~= rs::bars_of(clock, g, items.take(p)));
    assert(stored.drop_last() =~= done);
}

/// The bars from an opening on start there or later.
proof fn lemma_bars_from_opening(
    clock: ClockModel,
    granularity: Granularity,
    items: Seq<Agg>,
    p: int,
)
    requires
        laws::ordered(items),
        laws::steady(clock, granularity, items),
        0 <= p < items.len(),
        opens(clock, granularity, items, p),
    ensures
        ({
            let from = rs::bars_of(clock, granularity, items.skip(p));
            let b = clock.bucket(granularity, items[p].time);
            &&& from.len() > 0
            &&& from[0].time == b
            &&& forall|i: int| 0 <= i < from.len() ==> (#[trigger] from[i]).time >= b
        }),
{
    let g = granularity;
    let tail = items.skip(p);
    let from = rs::bars_of(clock, g, tail);
    lemma_steady_tail(clock, g, items, p);
    assert(laws::ordered(tail)) by {
        assert forall|i: int| 0 <= i < tail.len() implies 0 <= (#[trigger] tail[i]).time
            < u32::MAX by {
            assert(tail[i] == items[p + i]);
        }
        assert forall|i: int, j: int| 0 <= i < j < tail.len() implies (#[trigger] tail[i]).time <= (
        #[trigger] tail[j]).time by {
            assert(tail[i] == items[p + i] && tail[j] == items[p + j]);
        }
    }
    let m = tail.len() as int;
    lemma_open_run(clock, g, tail, m);
    assert(tail.take(m) =~= tail);
    laws::pushing_gives_the_bars(clock, g, tail);
    assert(tail[0] == items[p]);
    assert(laws::in_step(clock, g, items, p));
    laws::first_bar_starts_its_bucket(clock, g, tail);
    assert forall|i: int| 0 <= i < from.len() implies (#[trigger] from[i]).time >= clock.bucket(
        g,
        items[p].time,
    ) by {
        let (state, done) = laws::feed(clock, g, laws::fresh(), tail);
        if i < done.len() {
            assert(from[i] == done[i]);
        }
    }
}

/// A scan from the start of a bucket may begin among the items of earlier ones; the bars it makes of
/// those come before, and then the bars from the opening on.
proof fn lemma_scan_parts(
    clock: ClockModel,
    granularity: Granularity,
    items: Seq<Agg>,
    p: int,
) -> (again: Seq<Bar>)
    requires
        laws::ordered(items),
        laws::steady(clock, granularity, items),
        0 <= p < items.len(),
        opens(clock, granularity, items, p),
    ensures
        ({
            let b = clock.bucket(granularity, items[p].time);
            &&& all_before(again, b as u32)
            &&& rs::bars_of(clock, granularity, scanned(items, b)) == again + rs::bars_of(
                clock,
                granularity,
                items.skip(p),
            )
        }),
{
    let g = granularity;
    let b = clock.bucket(g, items[p].time);
    let k = first_from(items, b);
    assert(laws::in_step(clock, g, items, p));
    lemma_first_from(items, b);
    lemma_scanned(items, b, k);
    assert(k <= p) by {
        if k > p {
            assert(items[p].time < b);
        }
    }
    let scan = items.skip(k);
    let from = rs::bars_of(clock, g, items.skip(p));
    if k < p {
        let cut = items.subrange(k, p);
        lemma_late_scan(clock, g, items, k, p);
        assert(scan.take(p - k) =~= cut);
        assert(scan[p - k] == items[p]);
        assert(scan.skip(p - k) =~= items.skip(p));
        assert(opens(clock, g, scan, p - k));
        bars_part_at_an_opening(clock, g, scan, p - k);
        laws::pushing_gives_the_bars(clock, g, cut);
        let again = rs::bars_of(clock, g, cut);
        assert forall|i: int| 0 <= i < again.len() implies (#[trigger] again[i]).time < b by {
            let (state, done) = laws::feed(clock, g, laws::fresh(), cut);
            if i < done.len() {
                assert(again[i] == done[i]);
            }
        }
        again
    } else {
        assert(Seq::<Bar>::empty() + from =~= from);
        Seq::empty()
    }
}

/// How the bars of a source part at the last bar of a sidecar made of its first `n` items: those
/// before it, those from it on, and those before it that the scan of a refresh makes again in part.
proof fn lemma_refresh_parts(
    clock: ClockModel,
    granularity: Granularity,
    items: Seq<Agg>,
    n: int,
) -> (r: (Seq<Bar>, Seq<Bar>, Seq<Bar>))
    requires
        laws::ordered(items),
        laws::steady(clock, granularity, items),
        0 < n <= items.len(),
    ensures
        ({
            let (early, from, again) = r;
            let stored = rs::bars_of(clock, granularity, items.take(n));
            let time = stored.last().time;
            &&& stored.len() > 0
            &&& stored.drop_last() == early
            &&& rs::bars_of(clock, granularity, items) == early + from
            &&& rs::bars_of(clock, granularity, scanned(items, time as int)) == again + from
            &&& all_before(early, time)
            &&& all_before(again, time)
            &&& from.len() > 0
            &&& from[0].time == time
            &&& forall|i: int| 0 <= i < from.len() ==> (#[trigger] from[i]).time >= time
        }),
{
    let p = last_opening(clock, granularity, items, n);
    lemma_stored(clock, granularity, items, n);
    lemma_bars_from_opening(clock, granularity, items, p);
    let again = lemma_scan_parts(clock, granularity, items, p);
    (
        rs::bars_of(clock, granularity, items.take(p)),
        rs::bars_of(clock, granularity, items.skip(p)),
        again,
    )
}

/// Refreshing is rebuilding. Take a sidecar made of the first `n` items of a source, however far its
/// last bucket had got; drop its last bar, scan the source from that bar's time on, and append: the
/// file then holds exactly the bars of the whole source, as if it had been made from scratch. On any
/// clock and at any interval, of items that lie in the buckets they are gathered into.
pub proof fn refreshing_is_rebuilding(
    clock: ClockModel,
    granularity: Granularity,
    items: Seq<Agg>,
    n: int,
)
    requires
        laws::ordered(items),
        laws::steady(clock, granularity, items),
        0 < n <= items.len(),
    ensures
        ({
            let stored = rs::bars_of(clock, granularity, items.take(n));
            let fresh = rs::bars_of(
                clock,
                granularity,
                scanned(items, stored.last().time as int),
            );
            &&& stored.len() > 0
            &&& refreshed(stored, fresh) == rs::bars_of(clock, granularity, items)
        }),
{
    let (early, from, again) = lemma_refresh_parts(clock, granularity, items, n);
    let stored = rs::bars_of(clock, granularity, items.take(n));
    let time = stored.last().time;
    lemma_without(early, time);
    lemma_kept_tail(again, from, time);
}

/// A refresh reports the file that a rebuild would have made: as many bars as are left and written
/// together, the last of which was written by it, and none twice.
pub proof fn a_refresh_reports_the_rebuilt_file(
    clock: ClockModel,
    granularity: Granularity,
    items: Seq<Agg>,
    n: int,
)
    requires
        laws::ordered(items),
        laws::steady(clock, granularity, items),
        0 < n <= items.len(),
    ensures
        ({
            let stored = rs::bars_of(clock, granularity, items.take(n));
            let time = stored.last().time;
            let left = without(stored, time);
            let written = kept_from(
                rs::bars_of(clock, granularity, scanned(items, time as int)),
                Some(time),
            );
            let rebuilt = rs::bars_of(clock, granularity, items);
            &&& left + written == rebuilt
            &&& left.len() + written.len() == rebuilt.len()
            &&& written.len() > 0
            &&& written.last() == rebuilt.last()
            &&& laws::ascending_times(rebuilt)
        }),
{
    let (early, from, again) = lemma_refresh_parts(clock, granularity, items, n);
    let stored = rs::bars_of(clock, granularity, items.take(n));
    let time = stored.last().time;
    lemma_without(early, time);
    lemma_kept_tail(again, from, time);
    refreshing_is_rebuilding(clock, granularity, items, n);
    calendar::steady_bars_ascend(clock, granularity, items);
    assert((early + from).last() == from.last());
}

/// Refreshing a sidecar of daily bars, or of any others of a calendar, is rebuilding it, on a clock
/// whose zone goes through its days one after another.
pub proof fn refreshing_calendar_bars_is_rebuilding(
    clock: ClockModel,
    granularity: Granularity,
    first: int,
    last: int,
    items: Seq<Agg>,
    n: int,
)
    requires
        !(granularity is SubDay),
        rs::counts(granularity),
        calendar::keeps_days(clock.zone(), first, last),
        laws::ordered(items),
        calendar::all_within(clock.zone(), granularity, first, last, items),
        0 < n <= items.len(),
    ensures
        ({
            let stored = rs::bars_of(clock, granularity, items.take(n));
            let fresh = rs::bars_of(
                clock,
                granularity,
                scanned(items, stored.last().time as int),
            );
            &&& stored.len() > 0
            &&& refreshed(stored, fresh) == rs::bars_of(clock, granularity, items)
        }),
{
    calendar::calendar_buckets_are_steady(clock, granularity, first, last, items);
    refreshing_is_rebuilding(clock, granularity, items, n);
}

/// Refreshing a sidecar of intraday bars is rebuilding it: on a clock that counts from the epoch
/// always, and on a session's wherever no bucket reaches from one day's items into another's.
pub proof fn refreshing_intraday_bars_is_rebuilding(
    clock: ClockModel,
    secs: u32,
    items: Seq<Agg>,
    n: int,
)
    requires
        secs > 0,
        laws::ordered(items),
        clock matches ClockModel::Session(session) ==> laws::days_part(session, secs, items),
        0 < n <= items.len(),
    ensures
        ({
            let granularity = Granularity::SubDay(secs);
            let stored = rs::bars_of(clock, granularity, items.take(n));
            let fresh = rs::bars_of(
                clock,
                granularity,
                scanned(items, stored.last().time as int),
            );
            &&& stored.len() > 0
            &&& refreshed(stored, fresh) == rs::bars_of(clock, granularity, items)
        }),
{
    match clock {
        ClockModel::Session(session) => laws::session_buckets_are_steady(session, secs, items),
        _ => laws::epoch_buckets_are_steady(clock, secs, items),
    }
    refreshing_is_rebuilding(clock, Granularity::SubDay(secs), items, n);
}

/// The flat bars between the last of some bars and the first of others.
spec fn bridge(clock: ClockModel, granularity: Granularity, a: Seq<Bar>, b: Seq<Bar>) -> Seq<Bar> {
    if a.len() > 0 && b.len() > 0 {
        rs::gap(clock, granularity, a.last(), b[0])
    } else {
        Seq::empty()
    }
}

/// Filling two stretches of bars apart, and between them, is filling them as one.
proof fn lemma_gaps_append(clock: ClockModel, granularity: Granularity, a: Seq<Bar>, b: Seq<Bar>)
    ensures
        rs::with_gaps(clock, granularity, a + b) == rs::with_gaps(clock, granularity, a) + bridge(
            clock,
            granularity,
            a,
            b,
        ) + rs::with_gaps(clock, granularity, b),
    decreases b.len(),
{
    let none = Seq::<Bar>::empty();
    let first = rs::with_gaps(clock, granularity, a);
    if b.len() == 0 {
        assert(a + b =~= a);
        assert(first + none + none =~= first);
    } else if a.len() == 0 {
        assert(a + b =~= b);
        let rest = rs::with_gaps(clock, granularity, b);
        assert(none + none + rest =~= rest);
    } else {
        let all = a + b;
        let init = b.drop_last();
        assert(all.drop_last() =~= a + init);
        assert(all.last() == b.last());
        lemma_gaps_append(clock, granularity, a, init);
        let last = seq![b.last()];
        if b.len() == 1 {
            assert(init =~= none);
            assert(all[all.len() - 2] == a.last());
            let between = rs::gap(clock, granularity, a.last(), b[0]);
            assert(first + none + none =~= first);
            assert(b =~= last);
        } else {
            assert(all[all.len() - 2] == b[b.len() - 2]);
            let between = rs::gap(clock, granularity, b[b.len() - 2], b.last());
            let joint = bridge(clock, granularity, a, b);
            assert(init[0] == b[0]);
            let rest = rs::with_gaps(clock, granularity, init);
            assert((first + joint + rest) + between + last =~= first + joint + (rest + between
                + last));
        }
    }
}

proof fn lemma_gaps_before(clock: ClockModel, granularity: Granularity, bars: Seq<Bar>, time: u32)
    requires
        all_before(bars, time),
    ensures
        all_before(rs::with_gaps(clock, granularity, bars), time),
    decreases bars.len(),
{
    if bars.len() > 1 {
        let n = bars.len() as int;
        lemma_gaps_before(clock, granularity, bars.drop_last(), time);
        laws::fill_only_bridges_the_gap(clock, granularity, bars[n - 2], bars[n - 1]);
        let before = rs::with_gaps(clock, granularity, bars.drop_last());
        let between = rs::gap(clock, granularity, bars[n - 2], bars[n - 1]);
        let all = rs::with_gaps(clock, granularity, bars);
        assert forall|i: int| 0 <= i < all.len() implies (#[trigger] all[i]).time < time by {
            if i < before.len() {
                assert(all[i] == before[i]);
            } else if i < before.len() + between.len() {
                assert(all[i] == between[i - before.len()]);
                assert(bars[n - 1].time < time);
            } else {
                assert(all[i] == bars[n - 1]);
            }
        }
    }
}

/// Whether the interval after each bar comes no earlier than the bar.
pub open spec fn moves_on(clock: ClockModel, granularity: Granularity, bars: Seq<Bar>) -> bool {
    forall|i: int|
        0 <= i < bars.len() ==> clock.next(granularity, (#[trigger] bars[i]).time as int)
            >= bars[i].time
}

proof fn lemma_gaps_from(clock: ClockModel, granularity: Granularity, bars: Seq<Bar>, time: u32)
    requires
        forall|i: int| 0 <= i < bars.len() ==> (#[trigger] bars[i]).time >= time,
        moves_on(clock, granularity, bars),
    ensures
        ({
            let all = rs::with_gaps(clock, granularity, bars);
            forall|i: int| 0 <= i < all.len() ==> (#[trigger] all[i]).time >= time
        }),
    decreases bars.len(),
{
    if bars.len() > 1 {
        let n = bars.len() as int;
        let init = bars.drop_last();
        assert(moves_on(clock, granularity, init)) by {
            assert forall|i: int| 0 <= i < init.len() implies clock.next(
                granularity,
                (#[trigger] init[i]).time as int,
            ) >= init[i].time by {
                assert(init[i] == bars[i]);
            }
        }
        lemma_gaps_from(clock, granularity, init, time);
        laws::fill_only_bridges_the_gap(clock, granularity, bars[n - 2], bars[n - 1]);
        let before = rs::with_gaps(clock, granularity, init);
        let between = rs::gap(clock, granularity, bars[n - 2], bars[n - 1]);
        let all = rs::with_gaps(clock, granularity, bars);
        assert forall|i: int| 0 <= i < all.len() implies (#[trigger] all[i]).time >= time by {
            if i < before.len() {
                assert(all[i] == before[i]);
            } else if i < before.len() + between.len() {
                assert(all[i] == between[i - before.len()]);
                assert(bars[n - 2].time >= time);
            } else {
                assert(all[i] == bars[n - 1]);
            }
        }
    }
}

/// Refreshing a sidecar whose gaps are filled is rebuilding it, too: the flat bars before the
/// dropped bar stand as they were, and those after it come with the scan.
pub proof fn refreshing_with_gaps_is_rebuilding(
    clock: ClockModel,
    granularity: Granularity,
    items: Seq<Agg>,
    n: int,
)
    requires
        laws::ordered(items),
        laws::steady(clock, granularity, items),
        moves_on(clock, granularity, rs::bars_of(clock, granularity, items)),
        0 < n <= items.len(),
    ensures
        ({
            let g = granularity;
            let stored = rs::with_gaps(clock, g, rs::bars_of(clock, g, items.take(n)));
            let fresh = rs::with_gaps(
                clock,
                g,
                rs::bars_of(clock, g, scanned(items, stored.last().time as int)),
            );
            &&& stored.len() > 0
            &&& refreshed(stored, fresh) == rs::with_gaps(clock, g, rs::bars_of(clock, g, items))
        }),
{
    let g = granularity;
    let (early, from, again) = lemma_refresh_parts(clock, g, items, n);
    let bare = rs::bars_of(clock, g, items.take(n));
    let last = seq![bare.last()];
    let time = bare.last().time;
    assert(bare =~= early + last);
    lemma_gaps_append(clock, g, early, last);
    lemma_gaps_append(clock, g, early, from);
    lemma_gaps_append(clock, g, again, from);
    let filled = rs::with_gaps(clock, g, early);
    let joint = bridge(clock, g, early, last);
    assert(joint == bridge(clock, g, early, from));
    let stored = rs::with_gaps(clock, g, bare);
    let head = filled + joint;
    assert(stored =~= head.push(bare.last()));
    assert(stored.drop_last() =~= head);
    lemma_gaps_before(clock, g, early, time);
    if early.len() > 0 {
        laws::fill_only_bridges_the_gap(clock, g, early.last(), bare.last());
    }
    assert(all_before(head, time)) by {
        assert forall|i: int| 0 <= i < head.len() implies (#[trigger] head[i]).time < time by {
            if i < filled.len() {
                assert(head[i] == filled[i]);
            } else {
                assert(head[i] == joint[i - filled.len()]);
            }
        }
    }
    lemma_without(head, time);
    let refilled = rs::with_gaps(clock, g, again);
    let between = bridge(clock, g, again, from);
    lemma_gaps_before(clock, g, again, time);
    if again.len() > 0 {
        laws::fill_only_bridges_the_gap(clock, g, again.last(), from[0]);
    }
    assert(all_before(refilled + between, time)) by {
        let all = refilled + between;
        assert forall|i: int| 0 <= i < all.len() implies (#[trigger] all[i]).time < time by {
            if i < refilled.len() {
                assert(all[i] == refilled[i]);
            } else {
                assert(all[i] == between[i - refilled.len()]);
            }
        }
    }
    assert(moves_on(clock, g, from)) by {
        let whole = early + from;
        assert forall|i: int| 0 <= i < from.len() implies clock.next(
            g,
            (#[trigger] from[i]).time as int,
        ) >= from[i].time by {
            assert(whole[early.len() + i] == from[i]);
        }
    }
    lemma_gaps_from(clock, g, from, time);
    lemma_kept_tail(refilled + between, rs::with_gaps(clock, g, from), time);
}


} // verus!