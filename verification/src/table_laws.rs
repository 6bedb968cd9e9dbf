//! How rows of cells stand under their headers, and what the rows of summaries and listings show.
use vstd::prelude::*;

use crate::ls::LsRow;
use crate::model::{Bar, Tick, Vwap};
use crate::stat::StatRow;

verus! {

// ---- tables ------------------------------------------------------------------------------

/// A column is as wide as its widest cell, its header included: every cell fits, and one fills it.
pub proof fn columns_are_as_wide_as_needed(headers: Seq<Seq<char>>, rows: Seq<Seq<Seq<char>>>, i: int)
    requires
        0 <= i < headers.len(),
    ensures
        ({
            let width = crate::output::column_width(headers, rows, i);
            &&& headers[i].len() <= width
            &&& forall|k: int|
                0 <= k < rows.len() && i < (#[trigger] rows[k]).len() ==> rows[k][i].len() <= width
            &&& headers[i].len() == width || exists|k: int|
                0 <= k < rows.len() && i < (#[trigger] rows[k]).len() && rows[k][i].len() == width
        }),
    decreases rows.len(),
{
    if rows.len() > 0 {
        let init = rows.drop_last();
        columns_are_as_wide_as_needed(headers, init, i);
        let width = crate::output::column_width(headers, rows, i);
        let above = crate::output::column_width(headers, init, i);
        assert forall|k: int| 0 <= k < rows.len() && i < (#[trigger] rows[k]).len() implies
            rows[k][i].len() <= width by {
            if k < init.len() {
                assert(init[k] == rows[k]);
            }
        }
        if width == above && headers[i].len() != width {
            let k = choose|k: int|
                0 <= k < init.len() && i < (#[trigger] init[k]).len() && init[k][i].len() == above;
            assert(init[k] == rows[k]);
        } else if width != above {
            assert(rows[rows.len() - 1][i].len() == width);
        }
    }
}

/// A padded cell has the width of its column and holds the cell at its right end or at its left, with
/// spaces for the rest.
pub proof fn cells_are_padded_with_spaces(cell: Seq<char>, width: int, right: bool)
    requires
        cell.len() <= width,
    ensures
        ({
            let text = crate::output::padded(cell, width, right);
            let start = if right {
                width - cell.len()
            } else {
                0
            };
            &&& text.len() == width
            &&& text.subrange(start, start + cell.len()) == cell
            &&& forall|k: int|
                0 <= k < width && !(start <= k < start + cell.len()) ==> #[trigger] text[k] == ' '
        }),
{
    let text = crate::output::padded(cell, width, right);
    let start = if right {
        width - cell.len()
    } else {
        0
    };
    assert(text.subrange(start, start + cell.len()) =~= cell);
}

/// Where a column starts: behind the columns before it, two spaces apart.
pub open spec fn column_start(widths: Seq<int>, i: int) -> int
    decreases i,
{
    if i <= 0 {
        0
    } else {
        column_start(widths, i - 1) + widths[i - 1] + 2
    }
}

/// Every cell of a row stands in its own column, whatever the other cells hold.
pub proof fn cells_stand_in_their_columns(
    row: Seq<Seq<char>>,
    widths: Seq<int>,
    aligns: Seq<bool>,
    i: int,
)
    requires
        0 <= i < row.len() <= widths.len(),
        row.len() <= aligns.len(),
        forall|k: int| 0 <= k < row.len() ==> (#[trigger] row[k]).len() <= widths[k],
    ensures
        ({
            let text = crate::output::padded_cells(row, widths, aligns);
            let start = column_start(widths, i);
            &&& text.len() == column_start(widths, row.len() as int) - 2
            &&& 0 <= start
            &&& start + widths[i] <= text.len()
            &&& text.subrange(start, start + widths[i]) == crate::output::padded(
                row[i],
                widths[i],
                aligns[i],
            )
            &&& i > 0 ==> start >= 2 && text[start - 1] == ' ' && text[start - 2] == ' '
        }),
    decreases row.len(),
{
    let n = row.len() - 1;
    let init = row.drop_last();
    let text = crate::output::padded_cells(row, widths, aligns);
    let before = crate::output::padded_cells(init, widths, aligns);
    let cell = crate::output::padded(row[n], widths[n], aligns[n]);
    let start = column_start(widths, i);
    assert(row.last() == row[n]);
    cells_are_padded_with_spaces(row[n], widths[n], aligns[n]);
    assert forall|k: int| 0 <= k < init.len() implies (#[trigger] init[k]).len() <= widths[k] by {
        assert(init[k] == row[k]);
    }
    if n > 0 {
        cells_stand_in_their_columns(
            init,
            widths,
            aligns,
            if i < n {
                i
            } else {
                n - 1
            },
        );
        let gap = crate::text::spaces(2);
        assert(gap.len() == 2);
        assert(text =~= before + gap + cell);
        assert(column_start(widths, n) == before.len() + 2);
        if i < n {
            assert(text.subrange(start, start + widths[i]) =~= before.subrange(
                start,
                start + widths[i],
            ));
            assert(init[i] == row[i]);
            if i > 0 {
                assert(text[start - 1] == before[start - 1] && text[start - 2] == before[start - 2]);
            }
        } else {
            assert(text.subrange(start, start + widths[i]) =~= cell);
            assert(text[start - 1] == gap[1] && text[start - 2] == gap[0]);
        }
    } else {
        assert(before =~= Seq::<char>::empty());
        assert(text =~= cell);
        assert(text.subrange(0, widths[0]) =~= cell);
        assert(column_start(widths, 1) == column_start(widths, 0) + widths[0] + 2);
    }
}

/// Trimming a line takes white space off its end and nothing else.
pub proof fn trimming_takes_only_white_space(text: Seq<char>)
    ensures
        ({
            let kept = crate::text::end_trimmed(text);
            &&& kept.len() <= text.len()
            &&& kept == text.take(kept.len() as int)
            &&& forall|k: int|
                kept.len() <= k < text.len() ==> crate::text::is_space(#[trigger] text[k])
            &&& kept.len() > 0 ==> !crate::text::is_space(kept[kept.len() - 1])
        }),
    decreases text.len(),
{
    if text.len() > 0 && crate::text::is_space(text.last()) {
        let init = text.drop_last();
        trimming_takes_only_white_space(init);
        let kept = crate::text::end_trimmed(text);
        assert(kept =~= text.take(kept.len() as int));
        assert forall|k: int| kept.len() <= k < text.len() implies crate::text::is_space(
            #[trigger] text[k],
        ) by {
            if k < init.len() {
                assert(init[k] == text[k]);
            }
        }
    } else {
        assert(text.take(text.len() as int) =~= text);
    }
}

/// A table is one line of headers and then one line for each row, in order: as aligned text, as
/// Markdown behind a rule, and as CSV.
pub proof fn each_row_is_one_line(
    headers: Seq<Seq<char>>,
    aligns: Seq<bool>,
    widths: Seq<int>,
    rows: Seq<Seq<Seq<char>>>,
    row: Seq<Seq<char>>,
)
    ensures
        crate::output::table_lines(rows.push(row), widths, aligns) == crate::output::table_lines(
            rows,
            widths,
            aligns,
        ) + crate::output::table_line(row, widths, aligns),
        crate::output::table_lines(Seq::empty(), widths, aligns) == Seq::<char>::empty(),
        crate::output::table_text(headers, aligns, rows) == crate::output::table_line(
            headers,
            crate::output::column_widths(headers, rows),
            aligns,
        ) + crate::output::table_lines(rows, crate::output::column_widths(headers, rows), aligns),
        crate::output::csv_table_text(headers, rows.push(row)) == crate::output::csv_table_text(
            headers,
            rows,
        ) + crate::output::csv_line(crate::output::csv_cells(row)),
        crate::output::csv_table_text(headers, Seq::empty()) == crate::output::csv_line(headers),
        crate::output::markdown_text(headers, aligns, rows.push(row))
            == crate::output::markdown_text(headers, aligns, rows) + crate::output::markdown_line(
            crate::output::escaped_cells(row),
        ),
{
    assert(rows.push(row).drop_last() =~= rows);
    let line = crate::output::csv_line(crate::output::csv_cells(row));
    let head = crate::output::csv_line(headers);
    assert(head + (crate::output::csv_lines(rows) + line) =~= head + crate::output::csv_lines(rows)
        + line);
    assert(head + Seq::<char>::empty() =~= head);
    let top = crate::output::markdown_line(headers) + crate::output::markdown_line(
        crate::output::markdown_rule(aligns),
    );
    let next = crate::output::markdown_line(crate::output::escaped_cells(row));
    assert(top + (crate::output::markdown_lines(rows) + next) =~= top
        + crate::output::markdown_lines(rows) + next);
}

/// Joined parts stand one behind the other with the separator between each two and nowhere else.
pub proof fn parts_are_joined_in_order(parts: Seq<Seq<char>>, part: Seq<char>, separator: Seq<char>)
    ensures
        crate::text::joined(seq![part], separator) == part,
        parts.len() > 0 ==> crate::text::joined(parts.push(part), separator) == crate::text::joined(
            parts,
            separator,
        ) + separator + part,
        crate::text::joined(Seq::empty(), separator) == Seq::<char>::empty(),
{
    assert(parts.push(part).drop_last() =~= parts);
}

/// Replacing a character changes that character and no other.
pub proof fn replacing_is_character_by_character(s: Seq<char>, last: char, c: char, by: Seq<char>)
    ensures
        crate::text::replaced(Seq::empty(), c, by) == Seq::<char>::empty(),
        crate::text::replaced(s.push(last), c, by) == crate::text::replaced(s, c, by) + if last == c {
            by
        } else {
            seq![last]
        },
{
    assert(s.push(last).drop_last() =~= s);
    assert(crate::text::replaced(s, c, by).push(last) =~= crate::text::replaced(s, c, by) + seq![
        last,
    ]);
}

/// The rule under a Markdown table marks the columns that are justified to the right.
pub proof fn markdown_marks_the_right_columns(aligns: Seq<bool>, i: int)
    requires
        0 <= i < aligns.len(),
    ensures
        crate::output::markdown_rule(aligns).len() == aligns.len(),
        crate::output::markdown_rule(aligns)[i].last() == ':' <==> aligns[i],
{
    reveal_strlit("---:");
    reveal_strlit("---");
}

/// A CSV field is quoted where it holds a comma, a quote or a line break, and left as it is elsewhere.
pub proof fn fields_are_quoted_where_needed(value: Seq<char>)
    ensures
        crate::output::csv_text(value) == value <==> !(value.contains(',') || value.contains('"')
            || value.contains('\r') || value.contains('\n')),
        crate::output::csv_text(value) != value ==> ({
            let text = crate::output::csv_text(value);
            &&& text.len() >= value.len() + 2
            &&& text[0] == '"'
            &&& text[text.len() - 1] == '"'
        }),
{
    lemma_replaced_len(value);
    let text = crate::output::csv_text(value);
    if crate::output::needs_quotes(value) {
        assert(text.len() >= value.len() + 2);
    }
}

proof fn lemma_replaced_len(value: Seq<char>)
    ensures
        crate::text::replaced(value, '"', seq!['"', '"']).len() >= value.len(),
    decreases value.len(),
{
    if value.len() > 0 {
        lemma_replaced_len(value.drop_last());
    }
}

// ---- summaries ---------------------------------------------------------------------------

/// Whether column `k` has a name and shows a text.
pub open spec fn column_shows(
    headers: Seq<Seq<char>>,
    cells: Seq<Seq<char>>,
    k: int,
    name: Seq<char>,
    text: Seq<char>,
) -> bool {
    headers[k] == name && cells[k] == text
}

/// A time in a table: the clock of the zone `UTC` for people, the bare second otherwise; a dash for
/// none.
pub open spec fn time_shown(time: Option<u32>, human: bool) -> Seq<char> {
    if time is None {
        seq!['-']
    } else if human {
        crate::civil::clock_text("UTC"@, time->0 as int).push('Z')
    } else {
        crate::text::decimal(time->0 as nat)
    }
}

/// The price that a row gives, in price units.
pub open spec fn price_shown(price: Option<u32>) -> Seq<char> {
    if price is None {
        seq!['-']
    } else {
        crate::output::price_text(Some(price->0 as int))
    }
}

/// The cell under each header of a summary is the text of the field that the header names.
pub proof fn summary_cells_are_what_their_headers_name(row: StatRow, human: bool)
    ensures
        ({
            let (h, c) = (crate::stat::stat_headers(), crate::stat::stat_cells(row, human));
            &&& h.len() == 10
            &&& c.len() == 10
            &&& crate::stat::stat_aligns().len() == 10
            &&& column_shows(h, c, 0, "symbol"@, row.symbol@)
            &&& column_shows(h, c, 1, "kind"@, row.kind@)
            &&& column_shows(h, c, 2, "format"@, row.format@)
            &&& column_shows(h, c, 3, "trades"@, crate::output::comma_text(row.trades as int))
            &&& column_shows(h, c, 4, "first"@, time_shown(row.first, human))
            &&& column_shows(h, c, 5, "last"@, time_shown(row.last, human))
            &&& column_shows(h, c, 6, "min"@, price_shown(row.min))
            &&& column_shows(h, c, 7, "max"@, price_shown(row.max))
            &&& column_shows(
                h,
                c,
                8,
                "vwap"@,
                crate::output::vwap_text(row.vwap, row.volume as int),
            )
            &&& column_shows(h, c, 9, "volume"@, crate::output::comma_text(row.volume as int))
        }),
{
    let c = crate::stat::stat_cells(row, human);
    assert(c[4] =~= time_shown(row.first, human));
    assert(c[5] =~= time_shown(row.last, human));
}

/// Numbers are justified to the right in a summary, words and times to the left.
pub proof fn summary_numbers_stand_right(k: int)
    requires
        0 <= k < 10,
    ensures
        ({
            let name = crate::stat::stat_headers()[k];
            crate::stat::stat_aligns()[k] <==> name == "trades"@ || name == "min"@ || name == "max"@
                || name == "vwap"@ || name == "volume"@
        }),
{
    reveal_strlit("symbol");
    reveal_strlit("kind");
    reveal_strlit("format");
    reveal_strlit("trades");
    reveal_strlit("first");
    reveal_strlit("last");
    reveal_strlit("min");
    reveal_strlit("max");
    reveal_strlit("vwap");
    reveal_strlit("volume");
    assert("symbol"@[0] == 's' && "kind"@[0] == 'k' && "format"@[0] == 'f' && "first"@[0] == 'f'
        && "last"@[0] == 'l');
    assert("trades"@[0] == 't' && "min"@[0] == 'm' && "max"@[0] == 'm' && "vwap"@[0] == 'v'
        && "volume"@[0] == 'v');
}

/// A summary of trades gives the times of the first and the last, the lowest and the highest price,
/// what they came to, how many shares, and how many trades.
pub proof fn a_summary_is_of_its_trades(row: StatRow, ticks: Seq<Tick>)
    requires
        crate::stat::shows(row, crate::stat::figures(crate::resample::tick_aggs(ticks))),
        i128::MIN <= crate::aggregate_laws::turnover(ticks) <= i128::MAX,
        i64::MIN <= crate::aggregate_laws::size_total(ticks) <= i64::MAX,
    ensures
        row.trades == ticks.len(),
        row.volume == crate::aggregate_laws::size_total(ticks),
        ticks.len() == 0 ==> row.first is None && row.last is None && row.min is None && row.max
            is None && row.vwap is Undefined,
        ticks.len() > 0 ==> {
            &&& row.first == Some(ticks[0].time)
            &&& row.last == Some(ticks[ticks.len() - 1].time)
            &&& row.min is Some
            &&& row.max is Some
            &&& forall|i: int|
                0 <= i < ticks.len() ==> row.min->0 <= (#[trigger] ticks[i]).price <= row.max->0
            &&& exists|i: int| 0 <= i < ticks.len() && row.min->0 == (#[trigger] ticks[i]).price
            &&& exists|i: int| 0 <= i < ticks.len() && row.max->0 == (#[trigger] ticks[i]).price
            &&& row.vwap is Undefined <==> row.volume == 0
            &&& row.volume != 0 ==> row.vwap == Vwap::Mass(crate::aggregate_laws::turnover(ticks) as i128)
        },
{
    reveal_with_fuel(Seq::fold_left, 1);
    let items = crate::resample::tick_aggs(ticks);
    if ticks.len() > 0 {
        crate::aggregate_laws::trades_sum_up(ticks);
        let run = crate::aggregate::total(items);
        let n = ticks.len() - 1;
        assert(items[0] == crate::aggregate::tick_agg(ticks[0]));
        assert(items[n] == crate::aggregate::tick_agg(ticks[n]));
        let low = choose|i: int| 0 <= i < ticks.len() && run.low == (#[trigger] ticks[i]).price;
        let high = choose|i: int| 0 <= i < ticks.len() && run.high == (#[trigger] ticks[i]).price;
        assert(row.min->0 == ticks[low].price);
        assert(row.max->0 == ticks[high].price);
    }
}

/// A summary of bars gives the times of the first and the last, the lowest low and the highest high,
/// and the bars' totals.
pub proof fn a_summary_is_of_its_bars(row: StatRow, bars: Seq<Bar>)
    requires
        bars.len() > 0,
        crate::stat::shows(row, crate::stat::figures(crate::resample::bar_aggs(bars))),
        i128::MIN <= crate::aggregate_laws::bars_turnover(bars) <= i128::MAX,
        i64::MIN <= crate::aggregate_laws::bars_volume(bars) <= i64::MAX,
        crate::aggregate_laws::bars_trades(bars) <= u64::MAX,
    ensures
        row.first == Some(bars[0].time),
        row.last == Some(bars[bars.len() - 1].time),
        row.min is Some,
        row.max is Some,
        forall|i: int|
            0 <= i < bars.len() ==> row.min->0 <= (#[trigger] bars[i]).low && bars[i].high
                <= row.max->0,
        exists|i: int| 0 <= i < bars.len() && row.min->0 == (#[trigger] bars[i]).low,
        exists|i: int| 0 <= i < bars.len() && row.max->0 == (#[trigger] bars[i]).high,
        row.trades == crate::aggregate_laws::bars_trades(bars),
        row.volume == crate::aggregate_laws::bars_volume(bars),
        row.vwap is Undefined <==> row.volume == 0,
        row.volume != 0 ==> row.vwap == Vwap::Mass(crate::aggregate_laws::bars_turnover(bars) as i128),
{
    let items = crate::resample::bar_aggs(bars);
    crate::aggregate_laws::bars_sum_up(bars);
    let run = crate::aggregate::total(items);
    let n = bars.len() - 1;
    assert(items[0] == crate::aggregate::bar_agg(bars[0]));
    assert(items[n] == crate::aggregate::bar_agg(bars[n]));
    let low = choose|i: int| 0 <= i < bars.len() && run.low == (#[trigger] bars[i]).low;
    let high = choose|i: int| 0 <= i < bars.len() && run.high == (#[trigger] bars[i]).high;
    assert(row.min->0 == bars[low].low);
    assert(row.max->0 == bars[high].high);
}

/// The price that the minimum column of a summary shows is never above the one of the maximum column.
pub proof fn the_minimum_is_not_above_the_maximum(row: StatRow, ticks: Seq<Tick>, human: bool)
    requires
        ticks.len() > 0,
        crate::stat::shows(row, crate::stat::figures(crate::resample::tick_aggs(ticks))),
        i128::MIN <= crate::aggregate_laws::turnover(ticks) <= i128::MAX,
        i64::MIN <= crate::aggregate_laws::size_total(ticks) <= i64::MAX,
    ensures
        forall|a: int, b: int|
            0 <= a < 10 && 0 <= b < 10 && #[trigger] crate::stat::stat_headers()[a] == "min"@
                && #[trigger] crate::stat::stat_headers()[b] == "max"@ ==> crate::output_laws::shown(
                crate::stat::stat_cells(row, human)[a],
            ) <= crate::output_laws::shown(crate::stat::stat_cells(row, human)[b]),
{
    a_summary_is_of_its_trades(row, ticks);
    reveal_strlit("symbol");
    reveal_strlit("kind");
    reveal_strlit("format");
    reveal_strlit("trades");
    reveal_strlit("first");
    reveal_strlit("last");
    reveal_strlit("min");
    reveal_strlit("max");
    reveal_strlit("vwap");
    reveal_strlit("volume");
    assert("symbol"@[0] == 's' && "kind"@[0] == 'k' && "format"@[0] == 'f' && "first"@[0] == 'f'
        && "last"@[0] == 'l');
    assert("trades"@[0] == 't' && "min"@[0] == 'm' && "max"@[0] == 'm' && "vwap"@[0] == 'v'
        && "volume"@[0] == 'v' && "min"@[1] == 'i' && "max"@[1] == 'a');
    summary_cells_are_what_their_headers_name(row, human);
    crate::output_laws::prices_read_back(row.min->0 as int);
    crate::output_laws::prices_read_back(row.max->0 as int);
    assert(ticks[0].price >= row.min->0 && ticks[0].price <= row.max->0);
}

// ---- listings ----------------------------------------------------------------------------

/// A time in a listing: the clock of the zone asked for with its offset; a dash for none.
pub open spec fn stamp_shown(time: Option<u32>, zone: Seq<char>) -> Seq<char> {
    if time is None {
        "-"@
    } else {
        crate::civil::clock_text(zone, time->0 as int) + crate::civil::offset_text(
            crate::civil::zone_offset(zone, time->0 as int),
        )
    }
}

pub open spec fn count_shown(count: u64, human: bool) -> Seq<char> {
    if human {
        crate::output::comma_text(count as int)
    } else {
        crate::text::decimal(count as nat)
    }
}

/// The cell under each header of a listing is the text of the field that the header names.
pub proof fn listing_cells_are_what_their_headers_name(row: LsRow, zone: Seq<char>, human: bool)
    ensures
        ({
            let (h, c) = (crate::ls::ls_headers(), crate::ls::ls_cells(row, zone, human));
            &&& h.len() == 10
            &&& c.len() == 10
            &&& crate::ls::ls_aligns() == seq![
                false,
                false,
                false,
                false,
                true,
                false,
                false,
                false,
                false,
                true,
            ]
            &&& column_shows(h, c, 0, "file"@, row.file@)
            &&& column_shows(h, c, 1, "symbol"@, row.symbol@)
            &&& column_shows(h, c, 2, "kind"@, row.kind@)
            &&& column_shows(h, c, 3, "format"@, row.format@)
            &&& column_shows(h, c, 4, "frames"@, count_shown(row.frame_count, human))
            &&& column_shows(h, c, 5, "first"@, stamp_shown(row.first, zone))
            &&& column_shows(h, c, 6, "last"@, stamp_shown(row.last, zone))
            &&& column_shows(
                h,
                c,
                7,
                "granularity"@,
                if row.granularity is Some {
                    row.granularity->0@
                } else {
                    "-"@
                },
            )
            &&& column_shows(h, c, 8, "hours"@, row.hours@)
            &&& column_shows(h, c, 9, "bytes"@, count_shown(row.bytes, human))
        }),
{
}

/// Whether member `k` of an object has a name and a value.
pub open spec fn member_is(
    members: Seq<(Seq<char>, Seq<char>)>,
    k: int,
    name: Seq<char>,
    value: Seq<char>,
) -> bool {
    members[k].0 == name && members[k].1 == value
}

pub open spec fn stamp_member(time: Option<u32>, zone: Seq<char>) -> Seq<char> {
    if time is None {
        "null"@
    } else {
        crate::json::json_string(stamp_shown(time, zone))
    }
}

/// The members of a listing row as JSON hold the fields of their names: the same times, counts and
/// words as its cells.
pub proof fn listing_members_are_what_their_names_say(row: LsRow, zone: Seq<char>)
    ensures
        ({
            let m = crate::ls::ls_members(row, zone);
            &&& m.len() == 10
            &&& member_is(m, 0, "bytes"@, count_shown(row.bytes, false))
            &&& member_is(m, 1, "file"@, crate::json::json_string(row.file@))
            &&& member_is(m, 2, "first"@, stamp_member(row.first, zone))
            &&& member_is(m, 3, "format"@, crate::json::json_string(row.format@))
            &&& member_is(m, 4, "frame_count"@, count_shown(row.frame_count, false))
            &&& member_is(
                m,
                5,
                "granularity"@,
                if row.granularity is Some {
                    crate::json::json_string(row.granularity->0@)
                } else {
                    "null"@
                },
            )
            &&& member_is(m, 6, "hours"@, crate::json::json_string(row.hours@))
            &&& member_is(m, 7, "kind"@, crate::json::json_string(row.kind@))
            &&& member_is(m, 8, "last"@, stamp_member(row.last, zone))
            &&& member_is(m, 9, "symbol"@, crate::json::json_string(row.symbol@))
        }),
{
}

/// A listing has its rows in order, one line each, in every format; times are in the zone asked for,
/// and counts are grouped for people alone.
pub proof fn listings_have_their_rows_in_order(
    rows: Seq<LsRow>,
    row: LsRow,
    zone: Seq<char>,
    human: bool,
)
    ensures
        crate::ls::ls_grid(rows.push(row), zone, human) == crate::ls::ls_grid(
            rows,
            zone,
            human,
        ).push(crate::ls::ls_cells(row, zone, human)),
        crate::ls::ls_grid(Seq::empty(), zone, human).len() == 0,
        crate::ls::json_lines(rows.push(row), zone) == crate::ls::json_lines(rows, zone)
            + crate::json::object_text(crate::ls::ls_members(row, zone)).push('\n'),
        crate::ls::json_lines(Seq::empty(), zone) == Seq::<char>::empty(),
        crate::ls::ls_text(rows, crate::ls::LsFormat::JsonLines, zone) == crate::ls::json_lines(
            rows,
            zone,
        ),
        crate::ls::ls_text(rows, crate::ls::LsFormat::Table, zone) == crate::output::table_text(
            crate::ls::ls_headers(),
            crate::ls::ls_aligns(),
            crate::ls::ls_grid(rows, zone, true),
        ),
        crate::ls::ls_text(rows, crate::ls::LsFormat::Markdown, zone)
            == crate::output::markdown_text(
            crate::ls::ls_headers(),
            crate::ls::ls_aligns(),
            crate::ls::ls_grid(rows, zone, true),
        ),
        crate::ls::ls_text(rows, crate::ls::LsFormat::Csv, zone) == crate::output::csv_table_text(
            crate::ls::ls_headers(),
            crate::ls::ls_grid(rows, zone, false),
        ),
{
    assert(rows.push(row).drop_last() =~= rows);
    assert(crate::ls::ls_grid(rows.push(row), zone, human) =~= crate::ls::ls_grid(
        rows,
        zone,
        human,
    ).push(crate::ls::ls_cells(row, zone, human)));
}

/// A summary table has its rows in order.
pub proof fn summaries_have_their_rows_in_order(rows: Seq<StatRow>, row: StatRow, human: bool)
    ensures
        crate::stat::stat_grid(rows.push(row), human) == crate::stat::stat_grid(rows, human).push(
            crate::stat::stat_cells(row, human),
        ),
        crate::stat::stat_grid(Seq::empty(), human).len() == 0,
{
    assert(crate::stat::stat_grid(rows.push(row), human) =~= crate::stat::stat_grid(
        rows,
        human,
    ).push(crate::stat::stat_cells(row, human)));
}

/// The symbol of a file is its title; one without a title goes by the stem of its name, and one
/// without either is `unknown`.
pub proof fn titles_name_files(title: Seq<char>, stem: Seq<char>)
    ensures
        title.len() > 0 ==> crate::ls::symbol_of(title, Some(stem)) == title
            && crate::ls::symbol_of(title, None) == title,
        title.len() == 0 ==> crate::ls::symbol_of(title, Some(stem)) == stem
            && crate::ls::symbol_of(title, None) == "unknown"@,
{
}

/// A boundary key is a time where it is a number that a file's times can be, and then that time.
pub proof fn keys_are_times(time: u32, wide: i64)
    ensures
        crate::ls::key_time(crate::ls::BoundaryKey::U32(time)) == Some(time),
        crate::ls::key_time(crate::ls::BoundaryKey::I64(time as i64)) == Some(time),
        wide < 0 || wide > u32::MAX ==> crate::ls::key_time(crate::ls::BoundaryKey::I64(wide))
            is None,
        crate::ls::key_time(crate::ls::BoundaryKey::Other) is None,
        crate::ls::opt_key_time(Some(crate::ls::BoundaryKey::U32(time))) == Some(time),
        crate::ls::opt_key_time(None) is None,
{
}

// ---- lines -------------------------------------------------------------------------------

/// A line of CSV is its cells with commas between them; a line of Markdown its cells between bars; a
/// line of a table its padded cells, trimmed at the end. Each ends in a line break.
pub proof fn lines_are_made_of_their_cells(
    cells: Seq<Seq<char>>,
    cell: Seq<char>,
    widths: Seq<int>,
    aligns: Seq<bool>,
)
    ensures
        crate::output::csv_line(seq![cell]) == cell.push('\n'),
        cells.len() > 0 ==> crate::output::csv_line(cells.push(cell)) == crate::output::csv_line(
            cells,
        ).drop_last().push(',') + cell.push('\n'),
        crate::output::markdown_line(seq![cell]) == seq!['|', ' '] + cell + seq![' ', '|', '\n'],
        cells.len() > 0 ==> ({
            let before = crate::output::markdown_line(cells);
            crate::output::markdown_line(cells.push(cell)) == before.drop_last().push(' ') + cell
                + seq![' ', '|', '\n']
        }),
        crate::output::table_line(cells, widths, aligns) == crate::text::end_trimmed(
            crate::output::padded_cells(cells, widths, aligns),
        ).push('\n'),
{
    reveal_strlit(",");
    reveal_strlit("| ");
    reveal_strlit(" | ");
    reveal_strlit(" |\n");
    parts_are_joined_in_order(cells, cell, ","@);
    parts_are_joined_in_order(cells, cell, " | "@);
    assert(crate::output::csv_line(seq![cell]) =~= cell.push('\n'));
    assert(crate::output::markdown_line(seq![cell]) =~= seq!['|', ' '] + cell + seq![
        ' ',
        '|',
        '\n',
    ]);
    if cells.len() > 0 {
        assert(crate::output::csv_line(cells.push(cell)) =~= crate::output::csv_line(
            cells,
        ).drop_last().push(',') + cell.push('\n'));
        let before = crate::output::markdown_line(cells);
        assert(crate::output::markdown_line(cells.push(cell)) =~= before.drop_last().push(' ') + cell
            + seq![' ', '|', '\n']);
    }
}

/// The cells of a line of CSV are quoted one by one, and those of a line of Markdown escaped one by
/// one; every column has the width of its own cells.
pub proof fn cells_are_treated_one_by_one(
    row: Seq<Seq<char>>,
    headers: Seq<Seq<char>>,
    rows: Seq<Seq<Seq<char>>>,
    i: int,
)
    requires
        0 <= i,
    ensures
        crate::output::csv_cells(row).len() == row.len(),
        crate::output::escaped_cells(row).len() == row.len(),
        i < row.len() ==> crate::output::csv_cells(row)[i] == crate::output::csv_text(row[i]),
        i < row.len() ==> crate::output::escaped_cells(row)[i] == crate::text::replaced(
            row[i],
            '|',
            seq!['\\', '|'],
        ),
        crate::output::column_widths(headers, rows).len() == headers.len(),
        i < headers.len() ==> crate::output::column_widths(headers, rows)[i]
            == crate::output::column_width(headers, rows, i),
{
    reveal_strlit("\\|");
    assert("\\|"@ =~= seq!['\\', '|']);
}

/// A JSON object is its members between braces, in order, each a quoted name, a colon and its value.
pub proof fn objects_are_made_of_their_members(
    members: Seq<(Seq<char>, Seq<char>)>,
    name: Seq<char>,
    value: Seq<char>,
)
    ensures
        ({
            let member = crate::json::json_string(name).push(':') + value;
            &&& crate::json::object_text(seq![(name, value)]) == seq!['{'] + member + seq!['}']
            &&& members.len() > 0 ==> crate::json::object_text(members.push((name, value)))
                == crate::json::object_text(members).drop_last().push(',') + member + seq!['}']
        }),
        crate::json::opt_string(Some(value)) == crate::json::json_string(value),
        crate::json::opt_string(None) == "null"@,
{
    reveal_strlit(",");
    let f = |m: (Seq<char>, Seq<char>)| crate::json::json_string(m.0) + seq![':'] + m.1;
    let member = crate::json::json_string(name).push(':') + value;
    let one = seq![(name, value)];
    assert(f((name, value)) =~= member);
    assert(one.map_values(f) =~= seq![member]);
    let all = members.push((name, value));
    assert(all.map_values(f) =~= members.map_values(f).push(member));
    parts_are_joined_in_order(members.map_values(f), member, ","@);
    assert(crate::json::object_text(one) =~= seq!['{'] + member + seq!['}']);
    if members.len() > 0 {
        assert(crate::json::object_text(all) =~= crate::json::object_text(members).drop_last().push(
            ',',
        ) + member + seq!['}']);
    }
}

} // verus!
