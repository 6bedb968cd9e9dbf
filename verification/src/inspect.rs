//! Helpers for the `inspect` command: bar-granularity and trading-hours detection over a bounded
//! frame sample, schema-field labels, and a timezone- and semantic-aware frame preview.
use std::ops::Range;

use vstd::prelude::*;

use crate::civil::Zone;
use crate::interval::{token_meaning, Granularity, Interval, IntervalError, IntervalUnit};
use crate::model::{Bar, Tick};
use crate::output::{
    comma_i64, comma_u64, fmt_price, fmt_vwap, format_epoch_tz, push_padded, widen,
};
use crate::session::Session;
use crate::text::to_decimal;

verus! {

pub const DAY: u32 = 86_400;

/// The leading and (optional) trailing frame-index windows to sample from a `frame_count`-frame
/// file, each up to `per_end` frames and never overlapping: the trailing window is `None` only when
/// the leading window already reaches the end of the file. `inspect` samples both; `ls` reads the
/// leading one alone.
pub fn sample_windows(frame_count: u64, per_end: u64) -> (r: (Range<u64>, Option<Range<u64>>))
    ensures
        r.0.start == 0,
        r.0.end == if frame_count <= per_end {
            frame_count
        } else {
            per_end
        },
        r.1 is None <==> r.0.end == frame_count,
        r.1 matches Some(tail) ==> {
            &&& tail.end == frame_count
            &&& tail.start == if frame_count - per_end >= r.0.end {
                frame_count - per_end
            } else {
                r.0.end as int
            }
        },
{
    let lead: u64 = if frame_count < per_end {
        frame_count
    } else {
        per_end
    };
    let tail = if frame_count > lead {
        let back: u64 = frame_count - per_end;
        let start: u64 = if back > lead {
            back
        } else {
            lead
        };
        Some(start..frame_count)
    } else {
        None
    };
    (0..lead, tail)
}

/// The smallest positive gap between consecutive times, where there is one.
pub open spec fn least_gap(times: Seq<u32>) -> Option<int>
    decreases times.len(),
{
    if times.len() < 2 {
        None
    } else {
        let before = least_gap(times.drop_last());
        let gap = times.last() - times[times.len() - 2];
        if gap > 0 && (before matches Some(least) ==> gap < least) {
            Some(gap)
        } else {
            before
        }
    }
}

/// The least gap is there exactly when some time comes after the one before it; it is one of the
/// positive gaps, and none is smaller.
pub proof fn least_gap_is_least(times: Seq<u32>)
    ensures
        least_gap(times) is None <==> forall|i: int|
            0 < i < times.len() ==> (#[trigger] times[i]) <= times[i - 1],
        least_gap(times) matches Some(gap) ==> {
            &&& gap > 0
            &&& exists|i: int| 0 < i < times.len() && (#[trigger] times[i]) - times[i - 1] == gap
            &&& forall|i: int|
                0 < i < times.len() && (#[trigger] times[i]) > times[i - 1] ==> times[i] - times[i
                    - 1] >= gap
        },
    decreases times.len(),
{
    if times.len() >= 2 {
        let init = times.drop_last();
        let n = times.len() - 1;
        least_gap_is_least(init);
        assert forall|i: int| 0 < i < init.len() implies (#[trigger] times[i]) == init[i]
            && times[i - 1] == init[i - 1] by {}
        assert(times[n] - times[n - 1] == times.last() - times[times.len() - 2]);
        if let Some(gap) = least_gap(init) {
            let i = choose|i: int|
                0 < i < init.len() && (#[trigger] init[i]) - init[i - 1] == gap;
            assert(times[i] - times[i - 1] == gap);
        } else if least_gap(times) is None {
            assert forall|i: int| 0 < i < times.len() implies (#[trigger] times[i]) <= times[i
                - 1] by {
                if i < n {
                    assert(init[i] <= init[i - 1]);
                }
            }
        }
        assert forall|i: int|
            0 < i < times.len() && (#[trigger] times[i]) > times[i - 1] implies least_gap(
            times,
        ) is Some && times[i] - times[i - 1] >= least_gap(times)->0 by {
            if i < n {
                assert(init[i] > init[i - 1]);
            }
        }
    }
}

/// The interval that a least gap stands for. Intraday gaps map exactly; gaps of about a day and
/// larger ones with tolerance.
pub open spec fn gap_label(gap: int) -> Seq<char> {
    if 82_800 <= gap <= 90_000 {
        "1d"@
    } else if gap < DAY {
        if gap % 3_600 == 0 {
            crate::text::decimal((gap / 3_600) as nat).push('h')
        } else if gap % 60 == 0 {
            crate::text::decimal((gap / 60) as nat).push('m')
        } else {
            crate::text::decimal(gap as nat).push('s')
        }
    } else if 597_600 <= gap <= 612_000 {
        "1w"@
    } else if 2_419_200 <= gap <= 2_678_400 {
        "1mo"@
    } else if 31_536_000 <= gap <= 31_622_400 {
        "1y"@
    } else {
        crate::text::decimal(((gap + 43_200) / 86_400) as nat).push('d')
    }
}

/// Intraday gaps map exactly: the label of one reads back as an interval of just so many seconds, in
/// hours where they are whole, else in minutes where those are, else in seconds.
pub proof fn intraday_labels_parse_back(gap: int)
    requires
        0 < gap < 82_800,
    ensures
        ({
            let (count, unit) = if gap % 3_600 == 0 {
                (gap / 3_600, IntervalUnit::Hour)
            } else if gap % 60 == 0 {
                (gap / 60, IntervalUnit::Minute)
            } else {
                (gap, IntervalUnit::Second)
            };
            &&& token_meaning(gap_label(gap)) == Some(
                Ok::<(nat, IntervalUnit), IntervalError>((count as nat, unit)),
            )
            &&& forall|interval: Interval|
                interval.units() == count && interval.kind() == unit
                    ==> #[trigger] interval.anchoring() == Granularity::SubDay(gap as u32)
        }),
{
    let (count, suffix) = if gap % 3_600 == 0 {
        (gap / 3_600, 'h')
    } else if gap % 60 == 0 {
        (gap / 60, 'm')
    } else {
        (gap, 's')
    };
    let digits = crate::text::decimal(count as nat);
    crate::text::lemma_decimal_digits(count as nat);
    crate::text::decimal_round_trip(count as nat);
    assert(gap_label(gap) == digits.push(suffix));
    assert(gap_label(gap).drop_last() =~= digits);
}

/// The interval of a bar series, where its times show one.
pub open spec fn granularity_of(times: Seq<u32>) -> Option<Seq<char>> {
    match least_gap(times) {
        Some(gap) => Some(gap_label(gap)),
        None => None,
    }
}

/// Detects a bar series' interval label (`1m`, `30m`, `1h`, `1d`, `1w`, `1mo`, `1y`, …) from the
/// minimum positive gap between consecutive bar times. Intraday gaps map exactly; day-and-larger
/// gaps are matched with tolerance (DST makes a "1 day" gap 23–25h, weekends leave the *minimum*
/// gap at ~1 day). Returns `None` for fewer than two bars or no positive gap.
pub fn detect_bar_granularity(times: &[u32]) -> (r: Option<String>)
    ensures
        crate::commands::opt_text(r) == granularity_of(times@),
{
    let mut least: Option<u32> = None;
    if times.len() >= 2 {
        let mut i: usize = 1;
        assert(times@.take(1).len() < 2);
        while i < times.len()
            invariant
                1 <= i <= times.len(),
                match least {
                    Some(gap) => least_gap(times@.take(i as int)) == Some(gap as int),
                    None => least_gap(times@.take(i as int)) is None,
                },
            decreases times.len() - i,
        {
            proof {
                assert(times@.take(i + 1).drop_last() =~= times@.take(i as int));
                assert(times@.take(i + 1).last() == times@[i as int]);
                assert(times@.take(i + 1)[i - 1] == times@[i - 1]);
            }
            let gap: u32 = times[i].saturating_sub(times[i - 1]);
            let smaller = match least {
                Some(before) => gap < before,
                None => true,
            };
            if gap > 0 && smaller {
                least = Some(gap);
            }
            i += 1;
        }
        assert(times@.take(i as int) =~= times@);
    }
    match least {
        Some(gap) => Some(granularity_label(gap)),
        None => None,
    }
}

fn granularity_label(min_delta: u32) -> (r: String)
    ensures
        r@ == gap_label(min_delta as int),
{
    if 82_800 <= min_delta && min_delta <= 90_000 {
        "1d".to_owned()
    } else if min_delta < DAY {
        if min_delta % 3_600 == 0 {
            let mut out = to_decimal((min_delta / 3_600) as u128);
            out.push('h');
            out
        } else if min_delta % 60 == 0 {
            let mut out = to_decimal((min_delta / 60) as u128);
            out.push('m');
            out
        } else {
            let mut out = to_decimal(min_delta as u128);
            out.push('s');
            out
        }
    } else if 597_600 <= min_delta && min_delta <= 612_000 {
        "1w".to_owned()
    } else if 2_419_200 <= min_delta && min_delta <= 2_678_400 {
        "1mo".to_owned()
    } else if 31_536_000 <= min_delta && min_delta <= 31_622_400 {
        "1y".to_owned()
    } else {
        // A clean multiple of days (e.g. a 2-day bar) or anything else: round to whole days.
        let mut out = to_decimal((min_delta as u128 + 43_200) / 86_400);
        out.push('d');
        out
    }
}

/// Whether two of the times show a different minute of the day in a zone.
pub open spec fn minutes_differ(times: Seq<u32>, zone: Seq<char>) -> bool {
    exists|i: int|
        0 <= i < times.len() && crate::civil::zone_minute(zone, (#[trigger] times[i]) as int)
            != crate::civil::zone_minute(zone, times[0] as int)
}

/// Whether one of the times falls outside a session.
pub open spec fn any_outside(times: Seq<u32>, session: crate::session::SessionModel) -> bool {
    exists|i: int| 0 <= i < times.len() && !session.holds((#[trigger] times[i]) as int)
}

/// Classifies whether a sample's timestamps fall entirely inside regular trading hours.
///
/// - `"rth"` — every sampled frame is within `rth`'s window and the sample spans more than one
///   time-of-day (so the window is actually observable).
/// - `"extended"` — at least one sampled frame is outside the RTH window (pre/after-market).
/// - `"n/a"` — every frame shares a single time-of-day (e.g. daily bars anchored to the session
///   open), which cannot reveal which hours the underlying trades covered.
pub fn classify_hours(times: &[u32], rth: &Session) -> (r: &'static str)
    ensures
        r@ == hours_label(times@, rth@),
{
    let zone = rth.time_zone();
    let mut differ = false;
    let mut outside = false;
    let mut first: u32 = 0;
    let mut i: usize = 0;
    while i < times.len()
        invariant
            i <= times.len(),
            zone@ == rth@.zone,
            i > 0 ==> first == crate::civil::zone_minute(rth@.zone, times@[0] as int),
            differ == minutes_differ(times@.take(i as int), rth@.zone),
            outside == any_outside(times@.take(i as int), rth@),
        decreases times.len() - i,
    {
        let minute: u32 = zone.minute_at(times[i]);
        let inside = rth.contains(times[i]);
        let ghost (a, b) = (times@.take(i as int), times@.take(i + 1));
        if i == 0 {
            first = minute;
        }
        proof {
            assert(b[i as int] == times@[i as int]);
            assert(b[0] == times@[0]);
            assert forall|j: int| 0 <= j < i implies a[j] == b[j] by {}
            if differ {
                let j = choose|j: int|
                    0 <= j < a.len() && crate::civil::zone_minute(
                        rth@.zone,
                        (#[trigger] a[j]) as int,
                    ) != crate::civil::zone_minute(rth@.zone, a[0] as int);
                assert(b[j] == a[j]);
            }
            if outside {
                let j = choose|j: int| 0 <= j < a.len() && !rth@.holds((#[trigger] a[j]) as int);
                assert(b[j] == a[j]);
            }
        }
        if minute != first {
            differ = true;
        }
        if !inside {
            outside = true;
        }
        proof {
            if minutes_differ(b, rth@.zone) && !differ {
                let j = choose|j: int|
                    0 <= j < b.len() && crate::civil::zone_minute(
                        rth@.zone,
                        (#[trigger] b[j]) as int,
                    ) != crate::civil::zone_minute(rth@.zone, b[0] as int);
                assert(a[j] == b[j]);
            }
            if any_outside(b, rth@) && !outside {
                let j = choose|j: int| 0 <= j < b.len() && !rth@.holds((#[trigger] b[j]) as int);
                assert(a[j] == b[j]);
            }
        }
        i += 1;
    }
    assert(times@.take(i as int) =~= times@);
    if !differ {
        "n/a"
    } else if outside {
        "extended"
    } else {
        "rth"
    }
}

/// How a sample's times lie to a session.
pub open spec fn hours_label(times: Seq<u32>, session: crate::session::SessionModel) -> Seq<char> {
    if !minutes_differ(times, session.zone) {
        "n/a"@
    } else if any_outside(times, session) {
        "extended"@
    } else {
        "rth"@
    }
}

/// How a field's bytes are stored.
#[derive(Debug, Clone, Copy, PartialEq, Eq, Structural)]
pub enum FieldType {
    SignedInteger,
    UnsignedInteger,
    FloatingPoint,
    Utf8String,
    StringTableIndex,
}

#[derive(Debug, Clone, Copy, PartialEq, Eq, Structural)]
pub enum TimestampUnit {
    Seconds,
    Milliseconds,
    Microseconds,
    Nanoseconds,
}

/// What a field's value means.
#[derive(Debug, Clone, Copy, PartialEq, Eq, Structural)]
pub enum FieldSemantic {
    Plain,
    UnixTimestamp(TimestampUnit),
    FixedPoint(u8),
    Percentage(u8),
}

/// The label of what a field means.
pub open spec fn semantic_text(semantic: FieldSemantic) -> Seq<char> {
    match semantic {
        FieldSemantic::Plain => "none"@,
        FieldSemantic::UnixTimestamp(TimestampUnit::Seconds) => "unix-seconds"@,
        FieldSemantic::UnixTimestamp(TimestampUnit::Milliseconds) => "unix-milliseconds"@,
        FieldSemantic::UnixTimestamp(TimestampUnit::Microseconds) => "unix-microseconds"@,
        FieldSemantic::UnixTimestamp(TimestampUnit::Nanoseconds) => "unix-nanoseconds"@,
        FieldSemantic::FixedPoint(points) => "fixed-"@ + crate::text::decimal(points as nat),
        FieldSemantic::Percentage(points) => "percent-"@ + crate::text::decimal(points as nat),
    }
}

/// The label of a field's type.
pub open spec fn type_text(field_type: FieldType) -> Seq<char> {
    match field_type {
        FieldType::SignedInteger => "signed-integer"@,
        FieldType::UnsignedInteger => "unsigned-integer"@,
        FieldType::FloatingPoint => "floating-point"@,
        FieldType::Utf8String => "utf8-string"@,
        FieldType::StringTableIndex => "string-table-index"@,
    }
}

/// The TOML label for a field's storage type (mirrors `fwob inspect`).
pub fn field_type_label(field_type: FieldType) -> (r: &'static str)
    ensures
        r@ == type_text(field_type),
{
    match field_type {
        FieldType::SignedInteger => "signed-integer",
        FieldType::UnsignedInteger => "unsigned-integer",
        FieldType::FloatingPoint => "floating-point",
        FieldType::Utf8String => "utf8-string",
        FieldType::StringTableIndex => "string-table-index",
    }
}

/// The TOML label for a field's semantic (mirrors `fwob inspect`).
pub fn field_semantic_label(semantic: FieldSemantic) -> (r: String)
    ensures
        r@ == semantic_text(semantic),
{
    match semantic {
        FieldSemantic::Plain => "none".to_owned(),
        FieldSemantic::UnixTimestamp(TimestampUnit::Seconds) => "unix-seconds".to_owned(),
        FieldSemantic::UnixTimestamp(TimestampUnit::Milliseconds) => "unix-milliseconds".to_owned(),
        FieldSemantic::UnixTimestamp(TimestampUnit::Microseconds) => "unix-microseconds".to_owned(),
        FieldSemantic::UnixTimestamp(TimestampUnit::Nanoseconds) => "unix-nanoseconds".to_owned(),
        FieldSemantic::FixedPoint(points) => {
            let mut out = "fixed-".to_owned();
            out.append(to_decimal(points as u128).as_str());
            out
        },
        FieldSemantic::Percentage(points) => {
            let mut out = "percent-".to_owned();
            out.append(to_decimal(points as u128).as_str());
            out
        },
    }
}

/// How many frames the preview shows from the head and (separately) from the tail. A file with more
/// than `2 * FRAME_PREVIEW_COUNT` frames shows the first and last `FRAME_PREVIEW_COUNT` with an
/// ellipsis between; a smaller file shows every frame.
pub const FRAME_PREVIEW_COUNT: usize = 3;

/// The first items of a run, at most so many.
pub open spec fn first_few<T>(items: Seq<T>, n: int) -> Seq<T> {
    if items.len() <= n {
        items
    } else {
        items.take(n)
    }
}

/// The last items of a run, at most so many.
pub open spec fn last_few<T>(items: Seq<T>, n: int) -> Seq<T> {
    if items.len() <= n {
        items
    } else {
        items.skip(items.len() - n)
    }
}

pub open spec fn shown<T>(items: Seq<T>) -> Seq<Option<T>> {
    items.map_values(|item: T| Some(item))
}

/// The rows of a preview; `None` is the ellipsis. The last ones are those of the head and the tail
/// together, which ends the file.
pub open spec fn preview_of<T>(frame_count: int, head: Seq<T>, tail: Seq<T>) -> Seq<Option<T>> {
    if frame_count <= 6 {
        shown(first_few(head, frame_count))
    } else {
        shown(first_few(head, 3)) + seq![None::<T>] + shown(last_few(head + tail, 3))
    }
}

/// Selects the preview rows (head + optional ellipsis + tail) from decoded leading (`head`) and
/// trailing (`tail`) windows of a `frame_count`-frame file: all frames when `frame_count <= 2 *
/// FRAME_PREVIEW_COUNT`, otherwise the first and last `FRAME_PREVIEW_COUNT` with a `None` (ellipsis)
/// between. `tail` may be empty or short when the file is small enough that `head` reaches its end
/// or nearly so; then the last frames are taken from `head` too.
pub fn preview_rows<T: Copy>(frame_count: u64, head: &[T], tail: &[T]) -> (r: Vec<Option<T>>)
    ensures
        r@ == preview_of(frame_count as int, head@, tail@),
{
    let mut out: Vec<Option<T>> = Vec::new();
    if frame_count <= 6 {
        show(&mut out, head, 0, least(frame_count as usize, head.len()));
        assert(head@.subrange(0, head@.len() as int) =~= head@);
        assert(out@ =~= preview_of(frame_count as int, head@, tail@));
        return out;
    }
    show(&mut out, head, 0, least(FRAME_PREVIEW_COUNT, head.len()));
    let ghost first = out@;
    proof {
        assert(head@.subrange(0, head@.len() as int) =~= head@);
        assert(first =~= shown(first_few(head@, 3)));
    }
    out.push(None);
    let of_tail: usize = least(FRAME_PREVIEW_COUNT, tail.len());
    let of_head: usize = least(FRAME_PREVIEW_COUNT - of_tail, head.len());
    show(&mut out, head, head.len() - of_head, head.len());
    show(&mut out, tail, tail.len() - of_tail, tail.len());
    proof {
        lemma_last_few(head@, tail@, of_head as int, of_tail as int);
        let a = shown(head@.subrange(head@.len() - of_head, head@.len() as int));
        let b = shown(tail@.subrange(tail@.len() - of_tail, tail@.len() as int));
        assert(out@ == first.push(None) + a + b);
        assert(first.push(None) + a + b =~= first + seq![None::<T>] + (a + b));
    }
    out
}

/// The last three of two runs: those of the second, and of the first as many as are missing.
proof fn lemma_last_few<T>(head: Seq<T>, tail: Seq<T>, of_head: int, of_tail: int)
    requires
        of_tail == if tail.len() <= 3 {
            tail.len() as int
        } else {
            3
        },
        of_head == if head.len() <= 3 - of_tail {
            head.len() as int
        } else {
            3 - of_tail
        },
    ensures
        shown(last_few(head + tail, 3)) == shown(
            head.subrange(head.len() - of_head, head.len() as int),
        ) + shown(tail.subrange(tail.len() - of_tail, tail.len() as int)),
{
    let a = head.subrange(head.len() - of_head, head.len() as int);
    let b = tail.subrange(tail.len() - of_tail, tail.len() as int);
    assert(last_few(head + tail, 3) =~= a + b);
    assert(shown(a + b) =~= shown(a) + shown(b));
}

fn least(a: usize, b: usize) -> (r: usize)
    ensures
        r == if a <= b {
            a
        } else {
            b
        },
{
    if a <= b {
        a
    } else {
        b
    }
}

/// Appends a stretch of items.
fn show<T: Copy>(out: &mut Vec<Option<T>>, items: &[T], from: usize, to: usize)
    requires
        from <= to <= items@.len(),
    ensures
        final(out)@ == old(out)@ + shown(items@.subrange(from as int, to as int)),
{
    let ghost before = out@;
    let mut i: usize = from;
    while i < to
        invariant
            from <= i <= to <= items@.len(),
            out@ == before + shown(items@.subrange(from as int, i as int)),
        decreases to - i,
    {
        out.push(Some(items[i]));
        assert(out@ =~= before + shown(items@.subrange(from as int, i + 1)));
        i += 1;
    }
}

/// The cells of a tick.
pub open spec fn tick_row(tick: Tick, zone: Seq<char>) -> Seq<Seq<char>> {
    seq![
        crate::output::stamp_text(zone, tick.time as int),
        crate::output::price_text(Some(tick.price as int)),
        crate::output::comma_text(tick.size as int),
    ]
}

/// The cells of a bar.
pub open spec fn bar_row(bar: Bar, zone: Seq<char>) -> Seq<Seq<char>> {
    seq![
        crate::output::stamp_text(zone, bar.time as int),
        crate::output::price_text(Some(bar.open as int)),
        crate::output::price_text(Some(bar.high as int)),
        crate::output::price_text(Some(bar.low as int)),
        crate::output::price_text(Some(bar.close as int)),
        crate::output::comma_text(bar.volume as int),
        crate::output::vwap_text(bar.vwap, bar.volume as int),
        crate::output::comma_text(bar.trades as int),
    ]
}

fn tick_cells(tick: &Tick, tz: &Zone) -> (r: Vec<String>)
    ensures
        crate::text::texts(r@) == tick_row(*tick, tz@),
{
    let mut out: Vec<String> = Vec::new();
    out.push(format_epoch_tz(tick.time, tz));
    out.push(fmt_price(Some(tick.price as i128)));
    out.push(comma_i64(tick.size as i64));
    assert(crate::text::texts(out@) =~= tick_row(*tick, tz@));
    out
}

fn bar_cells(bar: &Bar, tz: &Zone) -> (r: Vec<String>)
    ensures
        crate::text::texts(r@) == bar_row(*bar, tz@),
{
    let mut out: Vec<String> = Vec::new();
    out.push(format_epoch_tz(bar.time, tz));
    out.push(fmt_price(Some(bar.open as i128)));
    out.push(fmt_price(Some(bar.high as i128)));
    out.push(fmt_price(Some(bar.low as i128)));
    out.push(fmt_price(Some(bar.close as i128)));
    out.push(comma_i64(bar.volume));
    out.push(fmt_vwap(bar.vwap, bar.volume));
    out.push(comma_u64(bar.trades));
    assert(crate::text::texts(out@) =~= bar_row(*bar, tz@));
    out
}

/// The rows of an aligned table as they are printed: `...` in every column for an ellipsis.
pub open spec fn printed_row(row: Option<Seq<Seq<char>>>, columns: nat) -> Seq<Seq<char>> {
    match row {
        Some(cells) => cells,
        None => Seq::new(columns, |i: int| "..."@),
    }
}

/// The rows that are not an ellipsis.
pub open spec fn full_rows(rows: Seq<Option<Seq<Seq<char>>>>) -> Seq<Seq<Seq<char>>>
    decreases rows.len(),
{
    if rows.len() == 0 {
        Seq::empty()
    } else {
        match rows.last() {
            Some(cells) => full_rows(rows.drop_last()).push(cells),
            None => full_rows(rows.drop_last()),
        }
    }
}

/// An aligned table with ellipsis rows: widths go by the full rows, and nothing is printed without
/// any row.
pub open spec fn aligned_text(
    headers: Seq<Seq<char>>,
    aligns: Seq<bool>,
    rows: Seq<Option<Seq<Seq<char>>>>,
) -> Seq<char> {
    if rows.len() == 0 {
        Seq::empty()
    } else {
        let widths = crate::output::column_widths(headers, full_rows(rows));
        crate::output::table_line(headers, widths, aligns) + crate::output::table_lines(
            rows.map_values(|row: Option<Seq<Seq<char>>>| printed_row(row, headers.len())),
            widths,
            aligns,
        )
    }
}

/// The cells of rows as text.
pub open spec fn row_texts(rows: Seq<Option<Vec<String>>>) -> Seq<Option<Seq<Seq<char>>>> {
    rows.map_values(
        |row: Option<Vec<String>>|
            match row {
                Some(cells) => Some(crate::text::texts(cells@)),
                None => None,
            },
    )
}

/// Formats `headers` + `rows` as a whitespace-aligned table (two-space column gap). `aligns[i]`
/// right-justifies column `i`; a `None` row renders as an ellipsis (`...` in every column), like
/// `fwob inspect`.
pub fn align_table(
    headers: &Vec<String>,
    aligns: &Vec<bool>,
    rows: &Vec<Option<Vec<String>>>,
) -> (r: String)
    requires
        headers@.len() <= aligns@.len(),
        forall|i: int|
            0 <= i < rows@.len() ==> (#[trigger] rows@[i] matches Some(cells) ==> cells@.len()
                <= headers@.len()),
    ensures
        r@ == aligned_text(crate::text::texts(headers@), aligns@, row_texts(rows@)),
{
    if rows.len() == 0 {
        return String::new();
    }
    let ghost h = crate::text::texts(headers@);
    let ghost all = row_texts(rows@);
    let mut widths: Vec<usize> = Vec::new();
    let mut ellipsis: Vec<String> = Vec::new();
    let mut i: usize = 0;
    while i < headers.len()
        invariant
            i <= headers.len(),
            h == crate::text::texts(headers@),
            widths@.len() == i,
            ellipsis@.len() == i,
            forall|j: int| 0 <= j < i ==> #[trigger] widths@[j] == h[j].len(),
            forall|j: int| 0 <= j < i ==> (#[trigger] ellipsis@[j])@ == "..."@,
        decreases headers.len() - i,
    {
        widths.push(headers[i].as_str().unicode_len());
        ellipsis.push("...".to_owned());
        i += 1;
    }
    let mut k: usize = 0;
    while k < rows.len()
        invariant
            k <= rows.len(),
            forall|i: int|
                0 <= i < rows@.len() ==> (#[trigger] rows@[i] matches Some(cells) ==> cells@.len()
                    <= headers@.len()),
            h == crate::text::texts(headers@),
            all == row_texts(rows@),
            widths@.len() == h.len(),
            forall|j: int|
                0 <= j < h.len() ==> #[trigger] widths@[j] == crate::output::column_width(
                    h,
                    full_rows(all.take(k as int)),
                    j,
                ),
        decreases rows.len() - k,
    {
        proof {
            assert(all.take(k + 1).drop_last() =~= all.take(k as int));
            assert(all.take(k + 1).last() == all[k as int]);
        }
        if let Some(cells) = &rows[k] {
            widen(&mut widths, cells);
            proof {
                let before = full_rows(all.take(k as int));
                assert(before.push(crate::text::texts(cells@)).drop_last() =~= before);
            }
        }
        k += 1;
    }
    assert(all.take(k as int) =~= all);
    let ghost w = crate::output::whole(widths@);
    assert(w =~= crate::output::column_widths(h, full_rows(all)));
    let mut out = String::new();
    push_padded(&mut out, headers, &widths, aligns);
    let ghost head = out@;
    assert(head =~= crate::output::table_line(h, w, aligns@));
    let ghost printed = all.map_values(
        |row: Option<Seq<Seq<char>>>| printed_row(row, h.len()),
    );
    let mut k: usize = 0;
    while k < rows.len()
        invariant
            k <= rows.len(),
            forall|i: int|
                0 <= i < rows@.len() ==> (#[trigger] rows@[i] matches Some(cells) ==> cells@.len()
                    <= headers@.len()),
            headers@.len() <= aligns@.len(),
            h == crate::text::texts(headers@),
            all == row_texts(rows@),
            widths@.len() == h.len(),
            w == crate::output::whole(widths@),
            ellipsis@.len() == h.len(),
            forall|j: int| 0 <= j < h.len() ==> (#[trigger] ellipsis@[j])@ == "..."@,
            printed == all.map_values(
                |row: Option<Seq<Seq<char>>>| printed_row(row, h.len()),
            ),
            out@ == head + crate::output::table_lines(printed.take(k as int), w, aligns@),
        decreases rows.len() - k,
    {
        match &rows[k] {
            Some(cells) => push_padded(&mut out, cells, &widths, aligns),
            None => push_padded(&mut out, &ellipsis, &widths, aligns),
        }
        proof {
            assert(printed.take(k + 1).drop_last() =~= printed.take(k as int));
            assert(printed.take(k + 1).last() == printed[k as int]);
            if rows@[k as int] is None {
                assert(crate::text::texts(ellipsis@) =~= printed[k as int]);
            }
            assert(out@ =~= head + crate::output::table_lines(printed.take(k + 1), w, aligns@));
        }
        k += 1;
    }
    assert(printed.take(k as int) =~= printed);
    out
}

pub open spec fn tick_headers() -> Seq<Seq<char>> {
    seq!["time"@, "price"@, "size"@]
}

pub open spec fn bar_headers() -> Seq<Seq<char>> {
    seq!["time"@, "open"@, "high"@, "low"@, "close"@, "volume"@, "vwap"@, "trades"@]
}

/// Renders preview `rows` (from [`preview_rows`]) as an aligned tick table; `None` is an ellipsis
/// row. Timestamps render in `tz`, prices at 4 decimals.
pub fn preview_ticks(rows: &Vec<Option<Tick>>, tz: &Zone) -> (r: String)
    ensures
        r@ == aligned_text(
            tick_headers(),
            seq![false, true, true],
            rows@.map_values(
                |row: Option<Tick>|
                    match row {
                        Some(tick) => Some(tick_row(tick, tz@)),
                        None => None,
                    },
            ),
        ),
{
    let mut cells: Vec<Option<Vec<String>>> = Vec::new();
    let ghost f = |row: Option<Tick>|
        match row {
            Some(tick) => Some(tick_row(tick, tz@)),
            None => None,
        };
    let mut i: usize = 0;
    while i < rows.len()
        invariant
            i <= rows.len(),
            f == |row: Option<Tick>|
                match row {
                    Some(tick) => Some(tick_row(tick, tz@)),
                    None => None,
                },
            cells@.len() == i,
            forall|j: int| 0 <= j < i ==> row_texts(cells@)[j] == #[trigger] f(rows@[j]),
            forall|j: int|
                0 <= j < i ==> (#[trigger] cells@[j] matches Some(c) ==> c@.len() <= 3),
        decreases rows.len() - i,
    {
        let ghost before = cells@;
        match &rows[i] {
            Some(tick) => {
                let row = tick_cells(tick, tz);
                assert(crate::text::texts(row@).len() == 3);
                cells.push(Some(row));
            },
            None => cells.push(None),
        }
        proof {
            assert forall|j: int| 0 <= j < i + 1 implies row_texts(cells@)[j] == #[trigger] f(
                rows@[j],
            ) by {
                if j < i {
                    assert(row_texts(before)[j] == f(rows@[j]));
                }
            }
        }
        i += 1;
    }
    let headers: Vec<String> = vec!["time".to_owned(), "price".to_owned(), "size".to_owned()];
    let aligns: Vec<bool> = vec![false, true, true];
    proof {
        assert(crate::text::texts(headers@) =~= tick_headers());
        assert(aligns@ =~= seq![false, true, true]);
        assert forall|j: int| 0 <= j < rows@.len() implies row_texts(cells@)[j]
            == rows@.map_values(f)[j] by {
            assert(row_texts(cells@)[j] == f(rows@[j]));
        }
        assert(row_texts(cells@) =~= rows@.map_values(f));
    }
    align_table(&headers, &aligns, &cells)
}

/// Renders preview `rows` (from [`preview_rows`]) as an aligned bar table; `None` is an ellipsis
/// row. Timestamps render in `tz`, prices at 4 decimals, volume/trades comma-grouped.
pub fn preview_bars(rows: &Vec<Option<Bar>>, tz: &Zone) -> (r: String)
    ensures
        r@ == aligned_text(
            bar_headers(),
            seq![false, true, true, true, true, true, true, true],
            rows@.map_values(
                |row: Option<Bar>|
                    match row {
                        Some(bar) => Some(bar_row(bar, tz@)),
                        None => None,
                    },
            ),
        ),
{
    let mut cells: Vec<Option<Vec<String>>> = Vec::new();
    let ghost f = |row: Option<Bar>|
        match row {
            Some(bar) => Some(bar_row(bar, tz@)),
            None => None,
        };
    let mut i: usize = 0;
    while i < rows.len()
        invariant
            i <= rows.len(),
            f == |row: Option<Bar>|
                match row {
                    Some(bar) => Some(bar_row(bar, tz@)),
                    None => None,
                },
            cells@.len() == i,
            forall|j: int| 0 <= j < i ==> row_texts(cells@)[j] == #[trigger] f(rows@[j]),
            forall|j: int|
                0 <= j < i ==> (#[trigger] cells@[j] matches Some(c) ==> c@.len() <= 8),
        decreases rows.len() - i,
    {
        let ghost before = cells@;
        match &rows[i] {
            Some(bar) => {
                let row = bar_cells(bar, tz);
                assert(crate::text::texts(row@).len() == 8);
                cells.push(Some(row));
            },
            None => cells.push(None),
        }
        proof {
            assert forall|j: int| 0 <= j < i + 1 implies row_texts(cells@)[j] == #[trigger] f(
                rows@[j],
            ) by {
                if j < i {
                    assert(row_texts(before)[j] == f(rows@[j]));
                }
            }
        }
        i += 1;
    }
    let headers: Vec<String> = vec![
        "time".to_owned(),
        "open".to_owned(),
        "high".to_owned(),
        "low".to_owned(),
        "close".to_owned(),
        "volume".to_owned(),
        "vwap".to_owned(),
        "trades".to_owned(),
    ];
    let aligns: Vec<bool> = vec![false, true, true, true, true, true, true, true];
    proof {
        assert(crate::text::texts(headers@) =~= bar_headers());
        assert(aligns@ =~= seq![false, true, true, true, true, true, true, true]);
        assert forall|j: int| 0 <= j < rows@.len() implies row_texts(cells@)[j]
            == rows@.map_values(f)[j] by {
            assert(row_texts(cells@)[j] == f(rows@[j]));
        }
        assert(row_texts(cells@) =~= rows@.map_values(f));
    }
    align_table(&headers, &aligns, &cells)
}

} // verus!
