//! What the tools hand out.
//!
//! These exist so the protocol surface is decoupled from the analysis engine's internal structs.
//! **Times are ISO-8601 in the session's time zone**, not raw epoch seconds: a model handed
//! `1704207600` will happily invent a date for it. What has no value — the average price of a bar
//! without volume, the extremes of a file without rows — is told apart from a number.
use vstd::prelude::*;

use crate::civil::Zone;
use crate::inspect::{field_semantic_label, field_type_label, FieldSemantic, FieldType};
use crate::report::{Inspection, SchemaField};
use crate::ls::LsRow;
use crate::model::{Bar, InputKind, Vwap};
use crate::output::format_epoch_tz;
use crate::settings::kind_label;
use crate::stat::StatRow;

verus! {

pub open spec fn iso_opt_text(epoch: Option<u32>, zone: Seq<char>) -> Option<Seq<char>> {
    match epoch {
        Some(epoch) => Some(crate::output::stamp_text(zone, epoch as int)),
        None => None,
    }
}

/// Formats an epoch second in `tz`, e.g. `2024-01-02T09:30:00-05:00`.
pub fn iso(epoch: u32, tz: &Zone) -> (r: String)
    ensures
        r@ == crate::output::stamp_text(tz@, epoch as int),
{
    format_epoch_tz(epoch, tz)
}

/// Same, for an optional boundary key.
pub fn iso_opt(epoch: Option<u32>, tz: &Zone) -> (r: Option<String>)
    ensures
        crate::commands::opt_text(r) == iso_opt_text(epoch, tz@),
{
    match epoch {
        Some(epoch) => Some(iso(epoch, tz)),
        None => None,
    }
}

/// Envelope for a tool whose payload is a list.
///
/// The protocol requires a result to be an **object**, so a tool cannot hand out a list alone.
/// Every list-valued result is therefore wrapped in a named field.
#[derive(Debug)]
pub struct Listing<T> {
    pub items: Vec<T>,
}

impl<T> Listing<T> {
    pub fn new(items: Vec<T>) -> (r: Self)
        ensures
            r.items == items,
    {
        Listing { items }
    }
}

/// One row of `mdfwob_ls`.
#[derive(Debug)]
pub struct LsEntry {
    /// Path relative to the server root.
    pub file: String,
    pub symbol: String,
    /// `"tick"` or `"bar"`.
    pub kind: String,
    /// On-disk FWOB format, e.g. `"fwob-v2"`.
    pub format: String,
    pub frame_count: u64,
    pub first: Option<String>,
    pub last: Option<String>,
    /// Detected bar interval (`"1m"`, `"1d"`, …); absent for tick files.
    pub granularity: Option<String>,
    /// `"rth"`, `"extended"`, or `"n/a"`.
    pub hours: String,
    pub bytes: u64,
}

impl LsEntry {
    pub fn new(row: LsRow, tz: &Zone) -> (r: Self)
        ensures
            r.file == row.file,
            r.symbol == row.symbol,
            r.kind@ == row.kind@,
            r.format == row.format,
            r.frame_count == row.frame_count,
            crate::commands::opt_text(r.first) == iso_opt_text(row.first, tz@),
            crate::commands::opt_text(r.last) == iso_opt_text(row.last, tz@),
            r.granularity == row.granularity,
            r.hours@ == row.hours@,
            r.bytes == row.bytes,
    {
        LsEntry {
            file: row.file,
            symbol: row.symbol,
            kind: row.kind.to_owned(),
            format: row.format,
            frame_count: row.frame_count,
            first: iso_opt(row.first, tz),
            last: iso_opt(row.last, tz),
            granularity: row.granularity,
            hours: row.hours.to_owned(),
            bytes: row.bytes,
        }
    }
}

/// One row of `mdfwob_stat`. Prices are in whole price units.
#[derive(Debug)]
pub struct StatEntry {
    pub symbol: String,
    pub kind: String,
    pub format: String,
    pub trades: u64,
    pub first: Option<String>,
    pub last: Option<String>,
    /// Absent when the file had no rows in range.
    pub min: Option<u32>,
    pub max: Option<u32>,
    pub vwap: Vwap,
    pub volume: i64,
}

impl StatEntry {
    pub fn new(row: StatRow, tz: &Zone) -> (r: Self)
        ensures
            r.symbol == row.symbol,
            r.kind@ == row.kind@,
            r.format == row.format,
            r.trades == row.trades,
            crate::commands::opt_text(r.first) == iso_opt_text(row.first, tz@),
            crate::commands::opt_text(r.last) == iso_opt_text(row.last, tz@),
            r.min == row.min,
            r.max == row.max,
            r.vwap == row.vwap,
            r.volume == row.volume,
    {
        StatEntry {
            symbol: row.symbol,
            kind: row.kind.to_owned(),
            format: row.format,
            trades: row.trades,
            first: iso_opt(row.first, tz),
            last: iso_opt(row.last, tz),
            min: row.min,
            max: row.max,
            vwap: row.vwap,
            volume: row.volume,
        }
    }
}

/// One OHLCV bar. Prices are in whole price units.
#[derive(Debug)]
pub struct BarRow {
    /// Bucket start, ISO-8601 in the session timezone.
    pub time: String,
    pub open: u32,
    pub high: u32,
    pub low: u32,
    pub close: u32,
    pub volume: i64,
    /// Undefined when the bucket had no volume to weight by.
    pub vwap: Vwap,
    pub trades: u64,
}

impl BarRow {
    pub fn new(bar: &Bar, tz: &Zone) -> (r: Self)
        ensures
            r.time@ == crate::output::stamp_text(tz@, bar.time as int),
            r.open == bar.open,
            r.high == bar.high,
            r.low == bar.low,
            r.close == bar.close,
            r.volume == bar.volume,
            r.vwap == bar.vwap,
            r.trades == bar.trades,
    {
        BarRow {
            time: iso(bar.time, tz),
            open: bar.open,
            high: bar.high,
            low: bar.low,
            close: bar.close,
            volume: bar.volume,
            vwap: bar.vwap,
            trades: bar.trades,
        }
    }
}

/// A per-symbol series, carrying the truncation contract.
///
/// `returned` is what is in `rows`; `total` is how many bars the query actually produced. When
/// they differ, `rows` holds the **most recent** `returned` of them — a model asking about a long
/// history almost always means "and what happened lately", and indicators are still computed over
/// the full series, so warm-up is correct either way.
#[derive(Debug)]
pub struct Series<T> {
    pub symbol: String,
    /// Bar interval the rows were resampled to, e.g. `"1d"`.
    pub interval: String,
    pub timezone: String,
    pub total: usize,
    pub returned: usize,
    pub truncated: bool,
    /// Present only when `truncated`, explaining how to get a complete answer.
    pub hint: Option<String>,
    pub rows: Vec<T>,
}

/// One column of the on-disk schema.
#[derive(Debug)]
pub struct FieldInfo {
    pub name: String,
    pub field_type: String,
    pub length: u16,
    pub offset: u32,
    pub semantic: String,
}

/// The overview of one file.
#[derive(Debug)]
pub struct InspectReport {
    pub file: String,
    pub symbol: String,
    pub kind: String,
    pub format: String,
    pub frame_type: String,
    pub frame_count: u64,
    pub bytes: u64,
    pub timezone: String,
    pub first: Option<String>,
    pub last: Option<String>,
    pub granularity: Option<String>,
    pub hours: String,
    pub fields: Vec<FieldInfo>,
    pub preview: String,
}

/// Whether fields are shown by their labels.
pub open spec fn fields_shown(shown: Seq<FieldInfo>, fields: Seq<SchemaField>) -> bool {
    &&& shown.len() == fields.len()
    &&& forall|i: int|
        0 <= i < fields.len() ==> {
            &&& (#[trigger] shown[i]).name@ == fields[i].name@
            &&& shown[i].field_type@ == crate::inspect::type_text(fields[i].field_type)
            &&& shown[i].length == fields[i].length
            &&& shown[i].offset == fields[i].offset
            &&& shown[i].semantic@ == crate::inspect::semantic_text(fields[i].semantic)
        }
}

fn show_fields(fields: &Vec<SchemaField>) -> (r: Vec<FieldInfo>)
    ensures
        fields_shown(r@, fields@),
{
    let mut out: Vec<FieldInfo> = Vec::new();
    let mut i: usize = 0;
    while i < fields.len()
        invariant
            i <= fields.len(),
            fields_shown(out@, fields@.take(i as int)),
        decreases fields.len() - i,
    {
        let field = &fields[i];
        let info = FieldInfo {
            name: field.name.clone(),
            field_type: field_type_label(field.field_type).to_owned(),
            length: field.length,
            offset: field.offset,
            semantic: field_semantic_label(field.semantic),
        };
        out.push(info);
        i += 1;
    }
    assert(fields@.take(i as int) =~= fields@);
    out
}

impl InspectReport {
    /// Renders an [`Inspection`] as what is handed out: labels for the enums, ISO-8601 for the
    /// boundary keys, and the schema flattened into per-column entries. A file with no frames has
    /// nothing to classify, and its hours say so explicitly.
    pub fn new(report: &Inspection, file: String, tz: &Zone) -> (r: Self)
        ensures
            r.file == file,
            r.symbol@ == report.symbol@,
            r.kind@ == match report.kind {
                InputKind::Tick => "tick"@,
                InputKind::Bar => "bar"@,
            },
            r.format@ == report.format@,
            r.frame_type@ == report.frame_type@,
            r.frame_count == report.frame_count,
            r.bytes == report.physical_bytes,
            r.timezone@ == crate::civil::zone_label(tz@),
            crate::commands::opt_text(r.first) == iso_opt_text(report.first, tz@),
            crate::commands::opt_text(r.last) == iso_opt_text(report.last, tz@),
            crate::commands::opt_text(r.granularity) == crate::commands::opt_text(
                report.granularity,
            ),
            r.hours@ == match report.hours {
                Some(hours) => hours@,
                None => "n/a"@,
            },
            fields_shown(r.fields@, report.fields@),
            r.preview@ == report.preview@,
    {
        let granularity = match &report.granularity {
            Some(label) => Some(label.clone()),
            None => None,
        };
        let hours = match report.hours {
            Some(hours) => hours.to_owned(),
            None => "n/a".to_owned(),
        };
        InspectReport {
            file,
            symbol: report.symbol.clone(),
            kind: kind_label(report.kind).to_owned(),
            format: report.format.clone(),
            frame_type: report.frame_type.clone(),
            frame_count: report.frame_count,
            bytes: report.physical_bytes,
            timezone: tz.name(),
            first: iso_opt(report.first, tz),
            last: iso_opt(report.last, tz),
            granularity,
            hours,
            fields: show_fields(&report.fields),
            preview: report.preview.clone(),
        }
    }
}

/// Structural integrity plus the scanned market summary.
#[derive(Debug)]
pub struct VerifyReport {
    pub file: String,
    pub symbol: String,
    pub kind: String,
    /// Always `"ok"` — a failed verification is an error of the tool instead.
    pub status: String,
    pub frame_count: u64,
    pub data: StatEntry,
}

impl VerifyReport {
    pub fn new(file: String, kind: InputKind, frame_count: u64, row: StatRow, tz: &Zone) -> (r:
        Self)
        ensures
            r.file == file,
            r.symbol@ == row.symbol@,
            r.kind@ == match kind {
                InputKind::Tick => "tick"@,
                InputKind::Bar => "bar"@,
            },
            r.status@ == "ok"@,
            r.frame_count == frame_count,
            r.data.symbol == row.symbol,
            r.data.kind@ == row.kind@,
            r.data.format == row.format,
            r.data.trades == row.trades,
            crate::commands::opt_text(r.data.first) == iso_opt_text(row.first, tz@),
            crate::commands::opt_text(r.data.last) == iso_opt_text(row.last, tz@),
            r.data.min == row.min,
            r.data.max == row.max,
            r.data.vwap == row.vwap,
            r.data.volume == row.volume,
    {
        VerifyReport {
            file,
            symbol: row.symbol.clone(),
            kind: kind_label(kind).to_owned(),
            status: "ok".to_owned(),
            frame_count,
            data: StatEntry::new(row, tz),
        }
    }
}

} // verus!
