//! What a report of a file says: its preview, its labels and its lines.
use vstd::prelude::*;

use crate::inspect::{FieldSemantic, FieldType, TimestampUnit};
use crate::interval::{IntervalError, IntervalUnit};
use crate::model::{Bar, InputKind, Tick, Vwap};
use crate::report::{Counted, Inspection, Line, SchemaField};
use crate::session::SessionModel;
use crate::stat::StatRow;

verus! {

// ---- previews ----------------------------------------------------------------------------

/// The cell under each header of a preview of trades is the text of the field that the header names.
pub proof fn trade_cells_are_what_their_headers_name(tick: Tick, zone: Seq<char>)
    ensures
        ({
            let (h, c) = (crate::inspect::tick_headers(), crate::inspect::tick_row(tick, zone));
            &&& h.len() == 3
            &&& c.len() == 3
            &&& crate::table_laws::column_shows(
                h,
                c,
                0,
                "time"@,
                crate::table_laws::stamp_shown(Some(tick.time), zone),
            )
            &&& crate::table_laws::column_shows(
                h,
                c,
                1,
                "price"@,
                crate::table_laws::price_shown(Some(tick.price)),
            )
            &&& crate::table_laws::column_shows(
                h,
                c,
                2,
                "size"@,
                crate::output::comma_text(tick.size as int),
            )
        }),
{
}

/// The cell under each header of a preview of bars is the text of the field that the header names.
pub proof fn bar_cells_are_what_their_headers_name(bar: Bar, zone: Seq<char>)
    ensures
        ({
            let (h, c) = (crate::inspect::bar_headers(), crate::inspect::bar_row(bar, zone));
            &&& h.len() == 8
            &&& c.len() == 8
            &&& crate::table_laws::column_shows(
                h,
                c,
                0,
                "time"@,
                crate::table_laws::stamp_shown(Some(bar.time), zone),
            )
            &&& crate::table_laws::column_shows(
                h,
                c,
                1,
                "open"@,
                crate::table_laws::price_shown(Some(bar.open)),
            )
            &&& crate::table_laws::column_shows(
                h,
                c,
                2,
                "high"@,
                crate::table_laws::price_shown(Some(bar.high)),
            )
            &&& crate::table_laws::column_shows(
                h,
                c,
                3,
                "low"@,
                crate::table_laws::price_shown(Some(bar.low)),
            )
            &&& crate::table_laws::column_shows(
                h,
                c,
                4,
                "close"@,
                crate::table_laws::price_shown(Some(bar.close)),
            )
            &&& crate::table_laws::column_shows(
                h,
                c,
                5,
                "volume"@,
                crate::output::comma_text(bar.volume as int),
            )
            &&& crate::table_laws::column_shows(
                h,
                c,
                6,
                "vwap"@,
                crate::output::vwap_text(bar.vwap, bar.volume as int),
            )
            &&& crate::table_laws::column_shows(
                h,
                c,
                7,
                "trades"@,
                crate::output::comma_text(bar.trades as int),
            )
        }),
{
}

/// A preview of up to six frames shows them all, in order; one of more shows the first three, a gap,
/// and the last three.
pub proof fn previews_show_both_ends<T>(frame_count: int, head: Seq<T>, tail: Seq<T>, k: int)
    requires
        0 <= k,
        head.len() >= 3 || frame_count <= 6,
        frame_count <= 6 ==> 0 <= frame_count <= head.len(),
    ensures
        ({
            let rows = crate::inspect::preview_of(frame_count, head, tail);
            let all = head + tail;
            &&& frame_count <= 6 ==> rows.len() == frame_count && (k < frame_count ==> rows[k]
                == Some(head[k]))
            &&& frame_count > 6 ==> {
                &&& rows.len() == 7
                &&& k < 3 ==> rows[k] == Some(head[k])
                &&& rows[3] is None
                &&& k < 3 ==> rows[4 + k] == Some(all[all.len() - 3 + k])
            }
        }),
{
    let all = head + tail;
    if frame_count > 6 {
        let last = crate::inspect::last_few(all, 3);
        assert(all.len() == 3 ==> last =~= all.skip(0));
    }
}

/// A gap in a preview is shown as dots in every column, and takes no part in its widths.
pub proof fn gaps_are_dots(
    rows: Seq<Option<Seq<Seq<char>>>>,
    cells: Seq<Seq<char>>,
    columns: nat,
    k: int,
)
    requires
        0 <= k < columns,
    ensures
        crate::inspect::printed_row(Some(cells), columns) == cells,
        crate::inspect::printed_row(None, columns).len() == columns,
        crate::inspect::printed_row(None, columns)[k] == "..."@,
        crate::inspect::full_rows(rows.push(None)) == crate::inspect::full_rows(rows),
        crate::inspect::full_rows(rows.push(Some(cells))) == crate::inspect::full_rows(rows).push(
            cells,
        ),
        crate::inspect::full_rows(Seq::empty()).len() == 0,
{
    assert(rows.push(None).drop_last() =~= rows);
    assert(rows.push(Some(cells)).drop_last() =~= rows);
}

// ---- labels ------------------------------------------------------------------------------

/// A daily step is a day less an hour or more, up to a day and a half, for the changes of the clock; a
/// weekly one a week give or take two hours; a monthly one 28 to 31 days; a yearly one 365 or 366. Any
/// other whole number of days is that many days.
pub proof fn calendar_labels_allow_for_the_clock(gap: int, days: int)
    requires
        gap >= 86_400 - 3_600,
    ensures
        gap < 86_400 + 43_200 <==> crate::inspect::gap_label(gap) == "1d"@,
        7 * 86_400 - 7_200 <= gap <= 7 * 86_400 + 7_200 <==> crate::inspect::gap_label(gap)
            == "1w"@,
        28 * 86_400 <= gap <= 31 * 86_400 <==> crate::inspect::gap_label(gap) == "1mo"@,
        365 * 86_400 <= gap <= 366 * 86_400 <==> crate::inspect::gap_label(gap) == "1y"@,
        gap == 86_400 * days && days >= 2 && days != 7 && !(28 <= days <= 31) && !(365 <= days
            <= 366) ==> crate::inspect::gap_label(gap) == crate::text::decimal(days as nat).push(
            'd',
        ),
{
    reveal_strlit("1d");
    reveal_strlit("1w");
    reveal_strlit("1mo");
    reveal_strlit("1y");
    let label = crate::inspect::gap_label(gap);
    assert("1d"@.last() == 'd' && "1w"@.last() == 'w' && "1mo"@.last() == 'o' && "1y"@.last()
        == 'y');
    if gap > 90_000 && !(597_600 <= gap <= 612_000) && !(2_419_200 <= gap <= 2_678_400) && !(
    31_536_000 <= gap <= 31_622_400) {
        let n = ((gap + 43_200) / 86_400) as nat;
        assert(label == crate::text::decimal(n).push('d'));
        if n == 1 {
            assert(label =~= "1d"@);
        }
        if label == "1d"@ {
            crate::text::lemma_decimal_digits(n);
            crate::text::decimal_round_trip(n);
            let d = crate::text::decimal(n);
            assert(label.drop_last() =~= d);
            assert("1d"@.drop_last() =~= seq!['1']);
            assert(d =~= seq!['1']);
            reveal_with_fuel(crate::text::decimal_value, 2);
            assert(d.drop_last() =~= Seq::<char>::empty());
            assert(n == 1);
        }
    }
}

/// A file's step is the least distance between two frames that follow each other.
pub proof fn the_step_is_the_least_distance(times: Seq<u32>, step: int)
    requires
        crate::inspect::least_gap(times) == Some(step),
    ensures
        step > 0,
        crate::inspect::granularity_of(times) == Some(crate::inspect::gap_label(step)),
        forall|i: int|
            0 < i < times.len() && (#[trigger] times[i]) > times[i - 1] ==> step <= times[i]
                - times[i - 1],
        exists|i: int| 0 < i < times.len() && step == (#[trigger] times[i]) - times[i - 1],
    decreases times.len(),
{
    if times.len() >= 2 {
        let init = times.drop_last();
        let n = times.len() - 1;
        let gap = times[n] - times[n - 1];
        let before = crate::inspect::least_gap(init);
        if before is Some {
            the_step_is_the_least_distance(init, before->0);
            let j = choose|i: int|
                0 < i < init.len() && before->0 == (#[trigger] init[i]) - init[i - 1];
            assert(times[j] == init[j] && times[j - 1] == init[j - 1]);
        } else {
            lemma_no_gap(init);
        }
        assert forall|i: int| 0 < i < times.len() && (#[trigger] times[i]) > times[i - 1] implies step
            <= times[i] - times[i - 1] by {
            if i < n {
                assert(init[i] == times[i] && init[i - 1] == times[i - 1]);
            }
        }
        if step == gap {
            assert(times[n] - times[n - 1] == step);
        }
    }
}

proof fn lemma_no_gap(times: Seq<u32>)
    requires
        crate::inspect::least_gap(times) is None,
    ensures
        forall|i: int| 0 < i < times.len() ==> (#[trigger] times[i]) <= times[i - 1],
    decreases times.len(),
{
    if times.len() >= 2 {
        let init = times.drop_last();
        lemma_no_gap(init);
        assert forall|i: int| 0 < i < times.len() implies (#[trigger] times[i]) <= times[i - 1] by {
            if i < init.len() {
                assert(init[i] == times[i] && init[i - 1] == times[i - 1]);
            }
        }
    }
}

/// The local minute of the day at an instant.
pub open spec fn minute_of(zone: Seq<char>, time: u32) -> int {
    let f = crate::civil::local_fields(zone, time as int)->0;
    60 * f.3 + f.4
}

/// A file whose frames all stand at one time of day has no hours to speak of; of the others, those
/// with a frame outside the session are extended, and those without are regular.
pub proof fn hours_tell_where_frames_lie(times: Seq<u32>, session: SessionModel)
    requires
        times.len() > 0,
    ensures
        ({
            let label = crate::inspect::hours_label(times, session);
            let varied = exists|i: int|
                0 <= i < times.len() && minute_of(session.zone, #[trigger] times[i]) != minute_of(
                    session.zone,
                    times[0],
                );
            let inside = forall|i: int|
                0 <= i < times.len() ==> session.open <= minute_of(session.zone, #[trigger] times[i])
                    < session.close;
            &&& label == "n/a"@ <==> !varied
            &&& label == "rth"@ <==> varied && inside
            &&& label == "extended"@ <==> varied && !inside
        }),
{
    reveal_strlit("n/a");
    reveal_strlit("rth");
    reveal_strlit("extended");
    assert("n/a"@[0] == 'n' && "rth"@[0] == 'r' && "extended"@[0] == 'e');
    let zone = session.zone;
    assert forall|t: u32| #[trigger] minute_of(zone, t) == crate::civil::zone_minute(zone, t as int) by {}
    if crate::inspect::minutes_differ(times, zone) {
        let i = choose|i: int|
            0 <= i < times.len() && crate::civil::zone_minute(zone, (#[trigger] times[i]) as int)
                != crate::civil::zone_minute(zone, times[0] as int);
        assert(minute_of(zone, times[i]) != minute_of(zone, times[0]));
    }
    if crate::inspect::any_outside(times, session) {
        let i = choose|i: int| 0 <= i < times.len() && !session.holds((#[trigger] times[i]) as int);
        assert(!(session.open <= minute_of(zone, times[i]) < session.close));
    } else {
        assert forall|i: int| 0 <= i < times.len() implies session.open <= minute_of(
            zone,
            #[trigger] times[i],
        ) < session.close by {
            assert(session.holds(times[i] as int));
        }
    }
}

/// The words for the types and meanings of fields.
pub proof fn fields_are_called_what_they_are(points: u8)
    ensures
        crate::inspect::type_text(FieldType::SignedInteger) == "signed-integer"@,
        crate::inspect::type_text(FieldType::UnsignedInteger) == "unsigned-integer"@,
        crate::inspect::type_text(FieldType::FloatingPoint) == "floating-point"@,
        crate::inspect::type_text(FieldType::Utf8String) == "utf8-string"@,
        crate::inspect::type_text(FieldType::StringTableIndex) == "string-table-index"@,
        crate::inspect::semantic_text(FieldSemantic::Plain) == "none"@,
        crate::inspect::semantic_text(FieldSemantic::UnixTimestamp(TimestampUnit::Seconds))
            == "unix-seconds"@,
        crate::inspect::semantic_text(FieldSemantic::UnixTimestamp(TimestampUnit::Milliseconds))
            == "unix-milliseconds"@,
        crate::inspect::semantic_text(FieldSemantic::UnixTimestamp(TimestampUnit::Microseconds))
            == "unix-microseconds"@,
        crate::inspect::semantic_text(FieldSemantic::UnixTimestamp(TimestampUnit::Nanoseconds))
            == "unix-nanoseconds"@,
        crate::inspect::semantic_text(FieldSemantic::FixedPoint(points)) == "fixed-"@
            + crate::text::decimal(points as nat),
        crate::inspect::semantic_text(FieldSemantic::Percentage(points)) == "percent-"@
            + crate::text::decimal(points as nat),
        InputKind::Tick.word() == "tick"@,
        InputKind::Bar.word() == "bar"@,
        crate::report::kind_text(InputKind::Tick) == "tick"@,
        crate::report::kind_text(InputKind::Bar) == "bar"@,
{
}

// ---- reports -----------------------------------------------------------------------------

/// How many of two optional lines are there.
pub open spec fn present(a: bool) -> int {
    if a {
        1
    } else {
        0
    }
}

/// A report of a file gives each of its facts under its own key.
pub proof fn reports_give_facts_under_their_keys(report: Inspection)
    ensures
        ({
            let l = crate::report::file_lines(report);
            &&& l.len() == 11
            &&& l[0] == Line::Section("file"@)
            &&& l[1] == Line::Text("format"@, report.format@)
            &&& l[2] == Line::Text("title"@, report.title@)
            &&& l[3] == Line::Text("kind"@, report.kind.word())
            &&& l[4] == Line::Text("frame_type"@, report.frame_type@)
            &&& l[5] == Line::Number("key_field_index"@, report.key_field_index as int)
            &&& l[7] == Line::Section("storage"@)
            &&& l[8] == Line::Number("physical_bytes"@, report.physical_bytes as int)
            &&& l[9] == Line::Number("frame_count"@, report.frame_count as int)
        }),
{
}

/// A report of a file gives the times of its first and last frame, its step and its hours, each under
/// its own key and in that order, as far as it has them.
pub proof fn reports_give_the_range(report: Inspection, zone: Seq<char>)
    ensures
        ({
            let l = crate::report::range_lines(report, zone);
            let a = 2 + present(report.first is Some);
            let b = a + present(report.last is Some);
            let c = b + present(report.granularity is Some);
            let d = c + present(report.hours is Some);
            &&& l.len() == d
            &&& l[0] == Line::Section("range"@)
            &&& l[1] == Line::Text("timezone"@, crate::civil::zone_label(zone))
            &&& report.first is Some ==> l[2] == Line::Text(
                "first"@,
                crate::table_laws::stamp_shown(report.first, zone),
            )
            &&& report.last is Some ==> l[a] == Line::Text(
                "last"@,
                crate::table_laws::stamp_shown(report.last, zone),
            )
            &&& report.granularity is Some ==> l[b] == Line::Text(
                "granularity"@,
                report.granularity->0@,
            )
            &&& report.hours is Some ==> l[c] == Line::Text("hours"@, report.hours->0@)
        }),
{
}

/// A report of a file describes its fields in order, each by name, type, length and place, and by its
/// meaning where it has one.
pub proof fn reports_describe_the_fields(fields: Seq<SchemaField>, field: SchemaField)
    ensures
        crate::report::schema_lines(fields.push(field)) == crate::report::schema_lines(fields)
            + crate::report::field_lines(field),
        crate::report::schema_lines(Seq::empty()).len() == 0,
        ({
            let l = crate::report::field_lines(field);
            &&& l.len() == 6 + present(field.semantic != FieldSemantic::Plain)
            &&& l[1] == Line::ArraySection("schema.fields"@)
            &&& l[2] == Line::Text("name"@, field.name@)
            &&& l[3] == Line::Text("type"@, crate::inspect::type_text(field.field_type))
            &&& l[4] == Line::Number("length"@, field.length as int)
            &&& l[5] == Line::Number("offset"@, field.offset as int)
            &&& field.semantic != FieldSemantic::Plain ==> l[6] == Line::Text(
                "semantic"@,
                crate::inspect::semantic_text(field.semantic),
            )
        }),
{
    assert(fields.push(field).drop_last() =~= fields);
}

/// A report of a file has its parts in order: the file, its range, its fields and a preview, which is
/// left out where there is nothing to show.
pub proof fn reports_have_their_parts_in_order(report: Inspection, zone: Seq<char>)
    ensures
        ({
            let l = crate::report::inspect_lines(report, zone);
            let a = crate::report::file_lines(report);
            let b = crate::report::range_lines(report, zone);
            let c = crate::report::schema_lines(report.fields@);
            let n = a.len() + b.len() + 3 + c.len();
            &&& l.take(a.len() as int) == a
            &&& l.subrange(a.len() as int, (a.len() + b.len()) as int) == b
            &&& l[a.len() as int + b.len() + 1] == Line::Section("schema"@)
            &&& l[a.len() as int + b.len() + 2] == Line::Number(
                "field_count"@,
                report.fields@.len() as int,
            )
            &&& l.subrange((a.len() + b.len() + 3) as int, n as int) == c
            &&& report.preview@.len() == 0 ==> l.len() == n
            &&& report.preview@.len() > 0 ==> l.len() == n + 3 && l[n as int + 1] == Line::Section(
                "frames"@,
            ) && l[n as int + 2] == Line::Multiline("preview"@, report.preview@)
        }),
{
    let l = crate::report::inspect_lines(report, zone);
    let a = crate::report::file_lines(report);
    let b = crate::report::range_lines(report, zone);
    let c = crate::report::schema_lines(report.fields@);
    let n = a.len() + b.len() + 3 + c.len();
    assert(l.take(a.len() as int) =~= a);
    assert(l.subrange(a.len() as int, (a.len() + b.len()) as int) =~= b);
    assert(l.subrange((a.len() + b.len() + 3) as int, n as int) =~= c);
}

/// The preview of a file shows its frames; its times are those of its frames, trades or bars, from
/// the first sampled to the last.
pub proof fn sampled_times_are_of_the_frames(ticks: Seq<Tick>, bars: Seq<Bar>, k: int)
    ensures
        0 <= k < ticks.len() ==> crate::report::tick_times(ticks)[k] == ticks[k].time,
        0 <= k < bars.len() ==> crate::report::bar_times(bars)[k] == bars[k].time,
        crate::report::tick_times(ticks).len() == ticks.len(),
        crate::report::bar_times(bars).len() == bars.len(),
{
}

/// A verified file's report gives the counts of frames, strings and bytes under their own keys.
pub proof fn verification_gives_counts_under_their_keys(
    title: Seq<char>,
    kind: InputKind,
    counted: Counted,
)
    ensures
        ({
            let l = crate::report::counted_lines(title, kind, counted);
            &&& l.len() == 8
            &&& l[0] == Line::Section("verify"@)
            &&& l[1] == Line::Text("status"@, "ok"@)
            &&& l[2] == Line::Text("title"@, title)
            &&& l[3] == Line::Text("kind"@, kind.word())
            &&& l[4] == Line::Number("frame_count"@, counted.frame_count as int)
            &&& l[5] == Line::Number("string_count"@, counted.string_count as int)
            &&& l[6] == Line::Number("file_length"@, counted.file_length as int)
        }),
{
}

/// A verified file's report gives the times, trades, prices and volume of its summary under their own
/// keys, as far as it has them.
pub proof fn verification_gives_the_summary(row: StatRow, zone: Seq<char>)
    ensures
        ({
            let l = crate::report::scan_lines(row, zone);
            let a = 2 + present(row.first is Some);
            let b = a + present(row.last is Some);
            &&& l.len() == b + 1
            &&& l[0] == Line::Section("data"@)
            &&& l[1] == Line::Text("timezone"@, crate::civil::zone_label(zone))
            &&& row.first is Some ==> l[2] == Line::Text(
                "first"@,
                crate::table_laws::stamp_shown(row.first, zone),
            )
            &&& row.last is Some ==> l[a] == Line::Text(
                "last"@,
                crate::table_laws::stamp_shown(row.last, zone),
            )
            &&& l[b] == Line::Number("trades"@, row.trades as int)
        }),
        ({
            let l = crate::report::price_lines(row);
            let a = present(row.min is Some);
            let b = a + present(row.max is Some);
            let averaged = row.vwap is Price || (row.vwap is Mass && row.volume != 0);
            let c = b + present(averaged);
            &&& l.len() == c + 1
            &&& row.min is Some ==> l[0] == Line::Quotient("min"@, row.min->0 as int, 10_000)
            &&& row.max is Some ==> l[a] == Line::Quotient("max"@, row.max->0 as int, 10_000)
            &&& averaged ==> match row.vwap {
                Vwap::Price(units) => l[b] == Line::Quotient("vwap"@, units as int, 10_000),
                Vwap::Mass(mass) => l[b] == Line::Quotient(
                    "vwap"@,
                    mass as int,
                    row.volume * 10_000,
                ),
                Vwap::Undefined => false,
            }
            &&& l[c] == Line::Number("volume"@, row.volume as int)
        }),
{
}

} // verus!
