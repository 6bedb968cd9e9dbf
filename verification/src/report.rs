//! The overview of a file, and the result of verifying one, line by line.
//!
//! A report is a list of lines; whoever prints it writes each one as TOML.
use vstd::prelude::*;

use crate::civil::Zone;
use crate::inspect::{
    classify_hours, detect_bar_granularity, field_semantic_label, field_type_label, preview_bars,
    preview_rows, preview_ticks, FieldSemantic, FieldType,
};
use crate::ls::{file_symbol, key_epoch, BoundaryKey};
use crate::model::{Bar, InputKind, Tick, Vwap};
use crate::output::format_epoch_tz;
use crate::session::Session;
use crate::settings::kind_label;
use crate::stat::StatRow;

verus! {

/// One field of a schema.
#[derive(Debug)]
pub struct SchemaField {
    pub name: String,
    pub field_type: FieldType,
    pub length: u16,
    pub offset: u32,
    pub semantic: FieldSemantic,
}

/// What is known of one file without a full scan.
#[derive(Debug)]
pub struct Inspection {
    pub title: String,
    pub symbol: String,
    pub kind: InputKind,
    pub format: String,
    pub frame_type: String,
    pub key_field_index: u64,
    pub frame_count: u64,
    pub physical_bytes: u64,
    pub first: Option<u32>,
    pub last: Option<u32>,
    pub granularity: Option<String>,
    /// Absent without a frame.
    pub hours: Option<&'static str>,
    pub fields: Vec<SchemaField>,
    /// A short head/tail sample of decoded frames.
    pub preview: String,
}

/// The decoded frames of a file's leading and trailing windows.
#[derive(Debug)]
pub enum Frames {
    Ticks(Vec<Tick>, Vec<Tick>),
    Bars(Vec<Bar>, Vec<Bar>),
}

/// What a file's header and size tell.
#[derive(Debug)]
pub struct Header {
    pub title: String,
    /// The file's name without its extension.
    pub stem: Option<String>,
    pub format: String,
    pub frame_type: String,
    pub key_field_index: u64,
    pub frame_count: u64,
    pub physical_bytes: u64,
    pub first: Option<BoundaryKey>,
    pub last: Option<BoundaryKey>,
    pub fields: Vec<SchemaField>,
}

pub open spec fn tick_times(ticks: Seq<Tick>) -> Seq<u32> {
    ticks.map_values(|t: Tick| t.time)
}

pub open spec fn bar_times(bars: Seq<Bar>) -> Seq<u32> {
    bars.map_values(|b: Bar| b.time)
}

impl Frames {
    pub open spec fn kind(self) -> InputKind {
        match self {
            Frames::Ticks(_, _) => InputKind::Tick,
            Frames::Bars(_, _) => InputKind::Bar,
        }
    }

    /// The times of both windows.
    pub open spec fn times(self) -> Seq<u32> {
        match self {
            Frames::Ticks(lead, tail) => tick_times(lead@) + tick_times(tail@),
            Frames::Bars(lead, tail) => bar_times(lead@) + bar_times(tail@),
        }
    }

    /// The preview of both windows.
    pub open spec fn preview(self, frame_count: int, zone: Seq<char>) -> Seq<char> {
        match self {
            Frames::Ticks(lead, tail) => crate::inspect::aligned_text(
                crate::inspect::tick_headers(),
                seq![false, true, true],
                crate::inspect::preview_of(frame_count, lead@, tail@).map_values(
                    |row: Option<Tick>|
                        match row {
                            Some(tick) => Some(crate::inspect::tick_row(tick, zone)),
                            None => None,
                        },
                ),
            ),
            Frames::Bars(lead, tail) => crate::inspect::aligned_text(
                crate::inspect::bar_headers(),
                seq![false, true, true, true, true, true, true, true],
                crate::inspect::preview_of(frame_count, lead@, tail@).map_values(
                    |row: Option<Bar>|
                        match row {
                            Some(bar) => Some(crate::inspect::bar_row(bar, zone)),
                            None => None,
                        },
                ),
            ),
        }
    }
}

fn push_tick_times(out: &mut Vec<u32>, ticks: &Vec<Tick>)
    ensures
        final(out)@ == old(out)@ + tick_times(ticks@),
{
    let ghost before = out@;
    let mut i: usize = 0;
    assert(before + tick_times(ticks@.take(0)) =~= before);
    while i < ticks.len()
        invariant
            i <= ticks.len(),
            out@ == before + tick_times(ticks@.take(i as int)),
        decreases ticks.len() - i,
    {
        out.push(ticks[i].time);
        assert(out@ =~= before + tick_times(ticks@.take(i + 1)));
        i += 1;
    }
    assert(ticks@.take(i as int) =~= ticks@);
}

fn push_bar_times(out: &mut Vec<u32>, bars: &Vec<Bar>)
    ensures
        final(out)@ == old(out)@ + bar_times(bars@),
{
    let ghost before = out@;
    let mut i: usize = 0;
    assert(before + bar_times(bars@.take(0)) =~= before);
    while i < bars.len()
        invariant
            i <= bars.len(),
            out@ == before + bar_times(bars@.take(i as int)),
        decreases bars.len() - i,
    {
        out.push(bars[i].time);
        assert(out@ =~= before + bar_times(bars@.take(i + 1)));
        i += 1;
    }
    assert(bars@.take(i as int) =~= bars@);
}

/// The time that a boundary key stands for.
pub open spec fn boundary_time(key: Option<BoundaryKey>) -> Option<u32> {
    match key {
        Some(key) => crate::ls::key_time(key),
        None => None,
    }
}

fn boundary(key: Option<BoundaryKey>) -> (r: Option<u32>)
    ensures
        r == boundary_time(key),
{
    match key {
        Some(key) => key_epoch(key),
        None => None,
    }
}

/// Assembles the overview of a file from its header and the two windows of frames that are sampled.
/// A granularity is detected for bars only, and the hours only where there is a frame.
pub fn inspect_frames(header: Header, frames: &Frames, rth: &Session, tz: &Zone) -> (r: Inspection)
    ensures
        r.title == header.title,
        r.symbol@ == crate::ls::symbol_of(
            header.title@,
            crate::commands::opt_text(header.stem),
        ),
        r.kind == frames.kind(),
        r.format == header.format,
        r.frame_type == header.frame_type,
        r.key_field_index == header.key_field_index,
        r.frame_count == header.frame_count,
        r.physical_bytes == header.physical_bytes,
        r.first == boundary_time(header.first),
        r.last == boundary_time(header.last),
        crate::commands::opt_text(r.granularity) == (if frames.kind() == InputKind::Bar {
            crate::inspect::granularity_of(frames.times())
        } else {
            None
        }),
        r.hours is Some <==> frames.times().len() > 0,
        r.hours matches Some(hours) ==> hours@ == crate::inspect::hours_label(
            frames.times(),
            rth@,
        ),
        r.fields == header.fields,
        r.preview@ == frames.preview(header.frame_count as int, tz@),
{
    let mut times: Vec<u32> = Vec::new();
    let (kind, preview) = match frames {
        Frames::Ticks(lead, tail) => {
            push_tick_times(&mut times, lead);
            push_tick_times(&mut times, tail);
            let rows = preview_rows(header.frame_count, lead.as_slice(), tail.as_slice());
            (InputKind::Tick, preview_ticks(&rows, tz))
        },
        Frames::Bars(lead, tail) => {
            push_bar_times(&mut times, lead);
            push_bar_times(&mut times, tail);
            let rows = preview_rows(header.frame_count, lead.as_slice(), tail.as_slice());
            (InputKind::Bar, preview_bars(&rows, tz))
        },
    };
    assert(times@ =~= frames.times());
    let granularity = match kind {
        InputKind::Bar => detect_bar_granularity(times.as_slice()),
        InputKind::Tick => None,
    };
    let hours = if times.len() > 0 {
        Some(classify_hours(times.as_slice(), rth))
    } else {
        None
    };
    let stem = match &header.stem {
        Some(stem) => Some(stem.as_str()),
        None => None,
    };
    let symbol = file_symbol(header.title.as_str(), stem);
    Inspection {
        title: header.title,
        symbol,
        kind,
        format: header.format,
        frame_type: header.frame_type,
        key_field_index: header.key_field_index,
        frame_count: header.frame_count,
        physical_bytes: header.physical_bytes,
        first: boundary(header.first),
        last: boundary(header.last),
        granularity,
        hours,
        fields: header.fields,
        preview,
    }
}

// ---- lines ------------------------------------------------------------------------------

/// One line of a report.
#[derive(Debug)]
pub enum Entry {
    Blank,
    /// A table header.
    Section(&'static str),
    /// The header of one table of a list.
    ArraySection(&'static str),
    Text(&'static str, String),
    Number(&'static str, i128),
    /// A number to four decimals, as the quotient of two.
    Quotient(&'static str, i128, i128),
    Multiline(&'static str, String),
}

/// One line of a report, as text.
pub enum Line {
    Blank,
    Section(Seq<char>),
    ArraySection(Seq<char>),
    Text(Seq<char>, Seq<char>),
    Number(Seq<char>, int),
    Quotient(Seq<char>, int, int),
    Multiline(Seq<char>, Seq<char>),
}

impl View for Entry {
    type V = Line;

    open spec fn view(&self) -> Line {
        match self {
            Entry::Blank => Line::Blank,
            Entry::Section(name) => Line::Section(name@),
            Entry::ArraySection(name) => Line::ArraySection(name@),
            Entry::Text(key, value) => Line::Text(key@, value@),
            Entry::Number(key, value) => Line::Number(key@, *value as int),
            Entry::Quotient(key, num, den) => Line::Quotient(key@, *num as int, *den as int),
            Entry::Multiline(key, value) => Line::Multiline(key@, value@),
        }
    }
}

pub open spec fn lines(entries: Seq<Entry>) -> Seq<Line> {
    entries.map_values(|e: Entry| e@)
}

fn add_line(out: &mut Vec<Entry>, entry: Entry)
    ensures
        lines(final(out)@) == lines(old(out)@).push(entry@),
{
    let ghost before = lines(out@);
    out.push(entry);
    assert(lines(out@) =~= before.push(entry@));
}

/// A time, where there is one.
pub open spec fn time_line(key: Seq<char>, time: Option<u32>, zone: Seq<char>) -> Seq<Line> {
    match time {
        Some(t) => seq![Line::Text(key, crate::output::stamp_text(zone, t as int))],
        None => Seq::empty(),
    }
}

fn add_time(out: &mut Vec<Entry>, key: &'static str, time: Option<u32>, tz: &Zone)
    ensures
        lines(final(out)@) == lines(old(out)@) + time_line(key@, time, tz@),
{
    let ghost before = lines(out@);
    if let Some(t) = time {
        add_line(out, Entry::Text(key, format_epoch_tz(t, tz)));
    }
    assert(lines(out@) =~= before + time_line(key@, time, tz@));
}

/// A text, where there is one.
pub open spec fn text_line(key: Seq<char>, value: Option<Seq<char>>) -> Seq<Line> {
    match value {
        Some(value) => seq![Line::Text(key, value)],
        None => Seq::empty(),
    }
}

pub open spec fn kind_text(kind: InputKind) -> Seq<char> {
    match kind {
        InputKind::Tick => "tick"@,
        InputKind::Bar => "bar"@,
    }
}

/// The lines on one field of the schema.
pub open spec fn field_lines(field: SchemaField) -> Seq<Line> {
    seq![
        Line::Blank,
        Line::ArraySection("schema.fields"@),
        Line::Text("name"@, field.name@),
        Line::Text("type"@, crate::inspect::type_text(field.field_type)),
        Line::Number("length"@, field.length as int),
        Line::Number("offset"@, field.offset as int),
    ] + if field.semantic == FieldSemantic::Plain {
        Seq::empty()
    } else {
        seq![Line::Text("semantic"@, crate::inspect::semantic_text(field.semantic))]
    }
}

/// The lines on every field of the schema.
pub open spec fn schema_lines(fields: Seq<SchemaField>) -> Seq<Line>
    decreases fields.len(),
{
    if fields.len() == 0 {
        Seq::empty()
    } else {
        schema_lines(fields.drop_last()) + field_lines(fields.last())
    }
}

/// The lines on a file and its storage.
pub open spec fn file_lines(report: Inspection) -> Seq<Line> {
    seq![
        Line::Section("file"@),
        Line::Text("format"@, report.format@),
        Line::Text("title"@, report.title@),
        Line::Text("kind"@, kind_text(report.kind)),
        Line::Text("frame_type"@, report.frame_type@),
        Line::Number("key_field_index"@, report.key_field_index as int),
        Line::Blank,
        Line::Section("storage"@),
        Line::Number("physical_bytes"@, report.physical_bytes as int),
        Line::Number("frame_count"@, report.frame_count as int),
        Line::Blank,
    ]
}

/// The lines on the times that a file covers.
pub open spec fn range_lines(report: Inspection, zone: Seq<char>) -> Seq<Line> {
    seq![Line::Section("range"@), Line::Text("timezone"@, crate::civil::zone_label(zone))] + time_line(
        "first"@,
        report.first,
        zone,
    ) + time_line("last"@, report.last, zone) + text_line(
        "granularity"@,
        crate::commands::opt_text(report.granularity),
    ) + text_line(
        "hours"@,
        match report.hours {
            Some(hours) => Some(hours@),
            None => None,
        },
    )
}

/// The lines above the schema's fields.
pub open spec fn schema_head(field_count: int) -> Seq<Line> {
    seq![
        Line::Blank,
        Line::Section("schema"@),
        Line::Number("field_count"@, field_count),
    ]
}

/// The lines on the preview, where there is one.
pub open spec fn frame_lines(preview: Seq<char>) -> Seq<Line> {
    if preview.len() == 0 {
        Seq::empty()
    } else {
        seq![Line::Blank, Line::Section("frames"@), Line::Multiline("preview"@, preview)]
    }
}

/// The lines of an overview.
pub open spec fn inspect_lines(report: Inspection, zone: Seq<char>) -> Seq<Line> {
    file_lines(report) + range_lines(report, zone) + schema_head(report.fields@.len() as int)
        + schema_lines(report.fields@) + frame_lines(report.preview@)
}

fn add_field(out: &mut Vec<Entry>, field: &SchemaField)
    ensures
        lines(final(out)@) == lines(old(out)@) + field_lines(*field),
{
    let ghost before = lines(out@);
    add_line(out, Entry::Blank);
    add_line(out, Entry::ArraySection("schema.fields"));
    add_line(out, Entry::Text("name", field.name.clone()));
    add_line(out, Entry::Text("type", field_type_label(field.field_type).to_owned()));
    add_line(out, Entry::Number("length", field.length as i128));
    add_line(out, Entry::Number("offset", field.offset as i128));
    if field.semantic != FieldSemantic::Plain {
        add_line(out, Entry::Text("semantic", field_semantic_label(field.semantic)));
    }
    assert(lines(out@) =~= before + field_lines(*field));
}

fn file_entries(report: &Inspection) -> (r: Vec<Entry>)
    ensures
        lines(r@) == file_lines(*report),
{
    let mut out: Vec<Entry> = Vec::new();
    add_line(&mut out, Entry::Section("file"));
    add_line(&mut out, Entry::Text("format", report.format.clone()));
    add_line(&mut out, Entry::Text("title", report.title.clone()));
    add_line(&mut out, Entry::Text("kind", kind_label(report.kind).to_owned()));
    add_line(&mut out, Entry::Text("frame_type", report.frame_type.clone()));
    add_line(&mut out, Entry::Number("key_field_index", report.key_field_index as i128));
    add_line(&mut out, Entry::Blank);
    add_line(&mut out, Entry::Section("storage"));
    add_line(&mut out, Entry::Number("physical_bytes", report.physical_bytes as i128));
    add_line(&mut out, Entry::Number("frame_count", report.frame_count as i128));
    add_line(&mut out, Entry::Blank);
    assert(lines(out@) =~= file_lines(*report));
    out
}

fn add_range(out: &mut Vec<Entry>, report: &Inspection, tz: &Zone)
    ensures
        lines(final(out)@) == lines(old(out)@) + range_lines(*report, tz@),
{
    let ghost before = lines(out@);
    add_line(out, Entry::Section("range"));
    add_line(out, Entry::Text("timezone", tz.name()));
    add_time(out, "first", report.first, tz);
    add_time(out, "last", report.last, tz);
    if let Some(label) = &report.granularity {
        add_line(out, Entry::Text("granularity", label.clone()));
    }
    if let Some(hours) = report.hours {
        add_line(out, Entry::Text("hours", hours.to_owned()));
    }
    assert(lines(out@) =~= before + range_lines(*report, tz@));
}

fn add_schema_head(out: &mut Vec<Entry>, field_count: usize)
    ensures
        lines(final(out)@) == lines(old(out)@) + schema_head(field_count as int),
{
    let ghost before = lines(out@);
    add_line(out, Entry::Blank);
    add_line(out, Entry::Section("schema"));
    add_line(out, Entry::Number("field_count", field_count as i128));
    assert(lines(out@) =~= before + schema_head(field_count as int));
}

fn add_schema(out: &mut Vec<Entry>, fields: &Vec<SchemaField>)
    ensures
        lines(final(out)@) == lines(old(out)@) + schema_lines(fields@),
{
    let ghost before = lines(out@);
    let mut i: usize = 0;
    assert(before + schema_lines(fields@.take(0)) =~= before);
    while i < fields.len()
        invariant
            i <= fields.len(),
            lines(out@) == before + schema_lines(fields@.take(i as int)),
        decreases fields.len() - i,
    {
        let ghost so_far = schema_lines(fields@.take(i as int));
        add_field(out, &fields[i]);
        proof {
            assert(fields@.take(i + 1).drop_last() =~= fields@.take(i as int));
            assert(lines(out@) =~= before + (so_far + field_lines(fields@[i as int])));
        }
        i += 1;
    }
    assert(fields@.take(i as int) =~= fields@);
}

fn add_frames(out: &mut Vec<Entry>, preview: &String)
    ensures
        lines(final(out)@) == lines(old(out)@) + frame_lines(preview@),
{
    let ghost before = lines(out@);
    if !preview.as_str().is_empty() {
        add_line(out, Entry::Blank);
        add_line(out, Entry::Section("frames"));
        add_line(out, Entry::Multiline("preview", preview.clone()));
    }
    assert(lines(out@) =~= before + frame_lines(preview@));
}

/// Lists the lines of an overview.
pub fn inspect_entries(report: &Inspection, tz: &Zone) -> (r: Vec<Entry>)
    ensures
        lines(r@) == inspect_lines(*report, tz@),
{
    let mut out = file_entries(report);
    add_range(&mut out, report, tz);
    add_schema_head(&mut out, report.fields.len());
    add_schema(&mut out, &report.fields);
    add_frames(&mut out, &report.preview);
    out
}

// ---- verifying -----------------------------------------------------------------------------

/// What a structural verification counted.
#[derive(Debug, Clone, Copy, PartialEq, Eq, Structural)]
pub struct Counted {
    pub frame_count: u64,
    pub string_count: u64,
    pub file_length: u64,
}

/// A price, where there is one.
pub open spec fn price_line(key: Seq<char>, price: Option<u32>) -> Seq<Line> {
    match price {
        Some(units) => seq![Line::Quotient(key, units as int, 10_000)],
        None => Seq::empty(),
    }
}

/// The average price, where there is volume to weight by.
pub open spec fn vwap_line(vwap: Vwap, volume: int) -> Seq<Line> {
    match vwap {
        Vwap::Undefined => Seq::empty(),
        Vwap::Price(units) => seq![Line::Quotient("vwap"@, units as int, 10_000)],
        Vwap::Mass(mass) => if volume == 0 {
            Seq::empty()
        } else {
            seq![Line::Quotient("vwap"@, mass as int, volume * 10_000)]
        },
    }
}

/// The lines on what a verification counted.
pub open spec fn counted_lines(title: Seq<char>, kind: InputKind, counted: Counted) -> Seq<Line> {
    seq![
        Line::Section("verify"@),
        Line::Text("status"@, "ok"@),
        Line::Text("title"@, title),
        Line::Text("kind"@, kind_text(kind)),
        Line::Number("frame_count"@, counted.frame_count as int),
        Line::Number("string_count"@, counted.string_count as int),
        Line::Number("file_length"@, counted.file_length as int),
        Line::Blank,
    ]
}

/// The lines on the times and the trades of a scan.
pub open spec fn scan_lines(row: StatRow, zone: Seq<char>) -> Seq<Line> {
    seq![Line::Section("data"@), Line::Text("timezone"@, crate::civil::zone_label(zone))] + time_line(
        "first"@,
        row.first,
        zone,
    ) + time_line("last"@, row.last, zone) + seq![Line::Number("trades"@, row.trades as int)]
}

/// The lines on the prices and the volume of a scan.
pub open spec fn price_lines(row: StatRow) -> Seq<Line> {
    price_line("min"@, row.min) + price_line("max"@, row.max) + vwap_line(
        row.vwap,
        row.volume as int,
    ) + seq![Line::Number("volume"@, row.volume as int)]
}

/// The lines of a verification.
pub open spec fn verify_lines(
    title: Seq<char>,
    kind: InputKind,
    counted: Counted,
    row: StatRow,
    zone: Seq<char>,
) -> Seq<Line> {
    counted_lines(title, kind, counted) + scan_lines(row, zone) + price_lines(row)
}

fn counted_entries(title: &str, kind: InputKind, counted: Counted) -> (r: Vec<Entry>)
    ensures
        lines(r@) == counted_lines(title@, kind, counted),
{
    let mut out: Vec<Entry> = Vec::new();
    add_line(&mut out, Entry::Section("verify"));
    add_line(&mut out, Entry::Text("status", "ok".to_owned()));
    add_line(&mut out, Entry::Text("title", title.to_owned()));
    add_line(&mut out, Entry::Text("kind", kind_label(kind).to_owned()));
    add_line(&mut out, Entry::Number("frame_count", counted.frame_count as i128));
    add_line(&mut out, Entry::Number("string_count", counted.string_count as i128));
    add_line(&mut out, Entry::Number("file_length", counted.file_length as i128));
    add_line(&mut out, Entry::Blank);
    assert(lines(out@) =~= counted_lines(title@, kind, counted));
    out
}

fn add_scan(out: &mut Vec<Entry>, row: &StatRow, tz: &Zone)
    ensures
        lines(final(out)@) == lines(old(out)@) + scan_lines(*row, tz@),
{
    let ghost before = lines(out@);
    add_line(out, Entry::Section("data"));
    add_line(out, Entry::Text("timezone", tz.name()));
    add_time(out, "first", row.first, tz);
    add_time(out, "last", row.last, tz);
    add_line(out, Entry::Number("trades", row.trades as i128));
    assert(lines(out@) =~= before + scan_lines(*row, tz@));
}

fn add_prices(out: &mut Vec<Entry>, row: &StatRow)
    ensures
        lines(final(out)@) == lines(old(out)@) + price_lines(*row),
{
    let ghost before = lines(out@);
    if let Some(units) = row.min {
        add_line(out, Entry::Quotient("min", units as i128, 10_000));
    }
    if let Some(units) = row.max {
        add_line(out, Entry::Quotient("max", units as i128, 10_000));
    }
    match row.vwap {
        Vwap::Undefined => {},
        Vwap::Price(units) => add_line(out, Entry::Quotient("vwap", units as i128, 10_000)),
        Vwap::Mass(mass) => {
            if row.volume != 0 {
                add_line(out, Entry::Quotient("vwap", mass, row.volume as i128 * 10_000));
            }
        },
    }
    add_line(out, Entry::Number("volume", row.volume as i128));
    assert(lines(out@) =~= before + price_lines(*row));
}

/// Lists the lines of a verification: what was counted, and the scanned market summary.
pub fn verify_entries(
    title: &str,
    kind: InputKind,
    counted: Counted,
    row: &StatRow,
    tz: &Zone,
) -> (r: Vec<Entry>)
    ensures
        lines(r@) == verify_lines(title@, kind, counted, *row, tz@),
{
    let mut out = counted_entries(title, kind, counted);
    add_scan(&mut out, row, tz);
    add_prices(&mut out, row);
    out
}

} // verus!
