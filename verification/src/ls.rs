//! `ls`: a quick, multi-file listing of tick/bar files — one row per file with tick/bar-oriented,
//! timezone-aware columns. Cheap: header + boundary keys plus a small bounded leading sample per
//! file (for bar granularity and the hours flag), never a full scan. Rendered as a table, Markdown,
//! CSV, or JSON Lines.
use vstd::prelude::*;

use crate::civil::Zone;
use crate::inspect::{classify_hours, detect_bar_granularity};
use crate::json::{number, object, string, string_or_null, Member};
use crate::model::InputKind;
use crate::output::{comma_u64, format_epoch_tz, Table};
use crate::session::Session;
use crate::text::{same, to_decimal};

verus! {

/// Output format for `ls`.
#[derive(Debug, Clone, Copy, PartialEq, Eq, Structural)]
pub enum LsFormat {
    Table,
    Markdown,
    Csv,
    JsonLines,
}

impl Default for LsFormat {
    fn default() -> (r: Self)
        ensures
            r == LsFormat::Table,
    {
        LsFormat::Table
    }
}

impl LsFormat {
    /// The format that a token names.
    pub open spec fn named(value: Seq<char>) -> Option<LsFormat> {
        if value == "table"@ {
            Some(LsFormat::Table)
        } else if value == "md"@ {
            Some(LsFormat::Markdown)
        } else if value == "csv"@ {
            Some(LsFormat::Csv)
        } else if value == "jsonl"@ {
            Some(LsFormat::JsonLines)
        } else {
            None
        }
    }

    pub fn parse(value: &str) -> (r: Option<Self>)
        ensures
            r == LsFormat::named(value@),
    {
        if same(value, "table") {
            Some(LsFormat::Table)
        } else if same(value, "md") {
            Some(LsFormat::Markdown)
        } else if same(value, "csv") {
            Some(LsFormat::Csv)
        } else if same(value, "jsonl") {
            Some(LsFormat::JsonLines)
        } else {
            None
        }
    }
}

/// One listing row for a tick or bar file.
#[derive(Debug)]
pub struct LsRow {
    /// Display path (set by the caller; typically relative to the current directory).
    pub file: String,
    pub symbol: String,
    pub kind: &'static str,
    pub format: String,
    pub frame_count: u64,
    /// First/last key epochs (rendered in the chosen timezone at output time).
    pub first: Option<u32>,
    pub last: Option<u32>,
    /// Detected bar interval (`1m`, `1d`, …); `None` for tick files.
    pub granularity: Option<String>,
    pub hours: &'static str,
    pub bytes: u64,
}

/// The boundary key of a file, as far as a listing reads it.
#[derive(Debug, Clone, Copy, PartialEq, Eq, Structural)]
pub enum BoundaryKey {
    U32(u32),
    I64(i64),
    /// A key of another type.
    Other,
}

/// The time that a key stands for, where it is one.
pub open spec fn key_time(key: BoundaryKey) -> Option<u32> {
    match key {
        BoundaryKey::U32(value) => Some(value),
        BoundaryKey::I64(value) => if 0 <= value <= u32::MAX {
            Some(value as u32)
        } else {
            None
        },
        BoundaryKey::Other => None,
    }
}

pub fn key_epoch(key: BoundaryKey) -> (r: Option<u32>)
    ensures
        r == key_time(key),
{
    match key {
        BoundaryKey::U32(value) => Some(value),
        BoundaryKey::I64(value) => if 0 <= value && value <= u32::MAX as i64 {
            Some(value as u32)
        } else {
            None
        },
        BoundaryKey::Other => None,
    }
}

/// The symbol of a file: its title, or the stem of its name, or `unknown`.
pub open spec fn symbol_of(title: Seq<char>, stem: Option<Seq<char>>) -> Seq<char> {
    if title.len() > 0 {
        title
    } else {
        match stem {
            Some(stem) => stem,
            None => "unknown"@,
        }
    }
}

pub fn file_symbol(title: &str, stem: Option<&str>) -> (r: String)
    ensures
        r@ == symbol_of(
            title@,
            match stem {
                Some(stem) => Some(stem@),
                None => None,
            },
        ),
{
    if title.is_empty() {
        match stem {
            Some(stem) => stem.to_owned(),
            None => "unknown".to_owned(),
        }
    } else {
        title.to_owned()
    }
}

/// What a listing reads of one file: its metadata, its boundary keys, and the times of its leading
/// frames.
#[derive(Debug)]
pub struct FileFacts {
    pub title: String,
    pub kind: InputKind,
    pub format: String,
    pub frame_count: u64,
    pub bytes: u64,
    pub first_key: Option<BoundaryKey>,
    pub last_key: Option<BoundaryKey>,
    pub times: Vec<u32>,
}

/// How many leading frames a listing reads.
pub fn sample_size(frame_count: u64, sample: u64) -> (r: u64)
    ensures
        r == if frame_count <= sample {
            frame_count
        } else {
            sample
        },
{
    if frame_count <= sample {
        frame_count
    } else {
        sample
    }
}

pub open spec fn opt_key_time(key: Option<BoundaryKey>) -> Option<u32> {
    match key {
        Some(key) => key_time(key),
        None => None,
    }
}

/// Makes one file's listing row: metadata (symbol/kind/format/frame_count/bytes), boundary time
/// range, and — from the sampled times — bar granularity and the trading-hours flag. `file` is the
/// display path to record, `stem` the stem of its name where it is readable text.
pub fn ls_file(file: String, stem: Option<&str>, facts: &FileFacts, rth: &Session) -> (r: LsRow)
    ensures
        r.file == file,
        r.symbol@ == symbol_of(
            facts.title@,
            match stem {
                Some(stem) => Some(stem@),
                None => None,
            },
        ),
        r.kind@ == facts.kind.word(),
        r.format@ == facts.format@,
        r.frame_count == facts.frame_count,
        r.bytes == facts.bytes,
        r.first == opt_key_time(facts.first_key),
        r.last == opt_key_time(facts.last_key),
        crate::commands::opt_text(r.granularity) == (if facts.kind is Bar {
            crate::inspect::granularity_of(facts.times@)
        } else {
            None
        }),
        r.hours@ == if facts.times@.len() == 0 {
            "n/a"@
        } else {
            crate::inspect::hours_label(facts.times@, rth@)
        },
{
    let granularity = match facts.kind {
        InputKind::Bar => detect_bar_granularity(facts.times.as_slice()),
        InputKind::Tick => None,
    };
    let hours = if facts.times.len() == 0 {
        "n/a"
    } else {
        classify_hours(facts.times.as_slice(), rth)
    };
    LsRow {
        file,
        symbol: file_symbol(facts.title.as_str(), stem),
        kind: facts.kind.label(),
        format: facts.format.clone(),
        frame_count: facts.frame_count,
        first: match facts.first_key {
            Some(key) => key_epoch(key),
            None => None,
        },
        last: match facts.last_key {
            Some(key) => key_epoch(key),
            None => None,
        },
        granularity,
        hours,
        bytes: facts.bytes,
    }
}

/// The headers of a listing.
pub open spec fn ls_headers() -> Seq<Seq<char>> {
    seq![
        "file"@,
        "symbol"@,
        "kind"@,
        "format"@,
        "frames"@,
        "first"@,
        "last"@,
        "granularity"@,
        "hours"@,
        "bytes"@,
    ]
}

/// The numeric columns (frames, bytes) are right-justified; everything else is left.
pub open spec fn ls_aligns() -> Seq<bool> {
    seq![false, false, false, false, true, false, false, false, false, true]
}

/// A count: grouped for people, plain otherwise.
pub open spec fn count_text(value: int, human: bool) -> Seq<char> {
    if human {
        crate::output::comma_text(value)
    } else {
        crate::text::decimal(value as nat)
    }
}

pub open spec fn opt_stamp(epoch: Option<u32>, zone: Seq<char>) -> Seq<char> {
    match epoch {
        Some(epoch) => crate::output::stamp_text(zone, epoch as int),
        None => "-"@,
    }
}

/// The cells of a listing row.
pub open spec fn ls_cells(row: LsRow, zone: Seq<char>, human: bool) -> Seq<Seq<char>> {
    seq![
        row.file@,
        row.symbol@,
        row.kind@,
        row.format@,
        count_text(row.frame_count as int, human),
        opt_stamp(row.first, zone),
        opt_stamp(row.last, zone),
        match row.granularity {
            Some(label) => label@,
            None => "-"@,
        },
        row.hours@,
        count_text(row.bytes as int, human),
    ]
}

fn count_cell(value: u64, human: bool) -> (r: String)
    ensures
        r@ == count_text(value as int, human),
{
    if human {
        comma_u64(value)
    } else {
        to_decimal(value as u128)
    }
}

fn stamp_cell(epoch: Option<u32>, tz: &Zone) -> (r: String)
    ensures
        r@ == opt_stamp(epoch, tz@),
{
    match epoch {
        Some(epoch) => format_epoch_tz(epoch, tz),
        None => "-".to_owned(),
    }
}

fn row_cells(row: &LsRow, tz: &Zone, human: bool) -> (r: Vec<String>)
    ensures
        crate::text::texts(r@) == ls_cells(*row, tz@, human),
{
    let mut out: Vec<String> = Vec::new();
    out.push(row.file.clone());
    out.push(row.symbol.clone());
    out.push(row.kind.to_owned());
    out.push(row.format.clone());
    out.push(count_cell(row.frame_count, human));
    out.push(stamp_cell(row.first, tz));
    out.push(stamp_cell(row.last, tz));
    out.push(
        match &row.granularity {
            Some(label) => label.clone(),
            None => "-".to_owned(),
        },
    );
    out.push(row.hours.to_owned());
    out.push(count_cell(row.bytes, human));
    assert(crate::text::texts(out@) =~= ls_cells(*row, tz@, human));
    out
}

pub open spec fn json_stamp(epoch: Option<u32>, zone: Seq<char>) -> Seq<char> {
    crate::json::opt_string(
        match epoch {
            Some(epoch) => Some(crate::output::stamp_text(zone, epoch as int)),
            None => None,
        },
    )
}

/// The members of a listing row as JSON, by name.
pub open spec fn ls_members(row: LsRow, zone: Seq<char>) -> Seq<(Seq<char>, Seq<char>)> {
    seq![
        ("bytes"@, crate::text::decimal(row.bytes as nat)),
        ("file"@, crate::json::json_string(row.file@)),
        ("first"@, json_stamp(row.first, zone)),
        ("format"@, crate::json::json_string(row.format@)),
        ("frame_count"@, crate::text::decimal(row.frame_count as nat)),
        (
            "granularity"@,
            crate::json::opt_string(
                match row.granularity {
                    Some(label) => Some(label@),
                    None => None,
                },
            ),
        ),
        ("hours"@, crate::json::json_string(row.hours@)),
        ("kind"@, crate::json::json_string(row.kind@)),
        ("last"@, json_stamp(row.last, zone)),
        ("symbol"@, crate::json::json_string(row.symbol@)),
    ]
}

fn stamp_json(epoch: Option<u32>, tz: &Zone) -> (r: String)
    ensures
        r@ == json_stamp(epoch, tz@),
{
    match epoch {
        Some(epoch) => string_or_null(Some(&format_epoch_tz(epoch, tz))),
        None => string_or_null(None),
    }
}

/// A listing row as a JSON object.
fn json_row(row: &LsRow, tz: &Zone) -> (r: String)
    ensures
        r@ == crate::json::object_text(ls_members(*row, tz@)),
{
    let members: Vec<Member> = vec![
        Member { key: "bytes", value: number(row.bytes) },
        Member { key: "file", value: string(row.file.as_str()) },
        Member { key: "first", value: stamp_json(row.first, tz) },
        Member { key: "format", value: string(row.format.as_str()) },
        Member { key: "frame_count", value: number(row.frame_count) },
        Member { key: "granularity", value: string_or_null(row.granularity.as_ref()) },
        Member { key: "hours", value: string(row.hours) },
        Member { key: "kind", value: string(row.kind) },
        Member { key: "last", value: stamp_json(row.last, tz) },
        Member { key: "symbol", value: string(row.symbol.as_str()) },
    ];
    assert(crate::json::member_texts(members@) =~= ls_members(*row, tz@));
    object(&members)
}

/// One JSON object per line.
pub open spec fn json_lines(rows: Seq<LsRow>, zone: Seq<char>) -> Seq<char>
    decreases rows.len(),
{
    if rows.len() == 0 {
        Seq::empty()
    } else {
        json_lines(rows.drop_last(), zone) + crate::json::object_text(
            ls_members(rows.last(), zone),
        ).push('\n')
    }
}

pub open spec fn ls_grid(rows: Seq<LsRow>, zone: Seq<char>, human: bool) -> Seq<Seq<Seq<char>>> {
    rows.map_values(|row: LsRow| ls_cells(row, zone, human))
}

/// A listing in a format. Counts are grouped in the formats for people.
pub open spec fn ls_text(rows: Seq<LsRow>, format: LsFormat, zone: Seq<char>) -> Seq<char> {
    match format {
        LsFormat::JsonLines => json_lines(rows, zone),
        LsFormat::Table => crate::output::table_text(
            ls_headers(),
            ls_aligns(),
            ls_grid(rows, zone, true),
        ),
        LsFormat::Markdown => crate::output::markdown_text(
            ls_headers(),
            ls_aligns(),
            ls_grid(rows, zone, true),
        ),
        LsFormat::Csv => crate::output::csv_table_text(ls_headers(), ls_grid(rows, zone, false)),
    }
}

fn ls_table(rows: &Vec<LsRow>, tz: &Zone, human: bool) -> (r: Table)
    ensures
        r.regular(),
        crate::text::texts(r.headers@) == ls_headers(),
        r.aligns@ == ls_aligns(),
        crate::output::grid(r.rows@) == ls_grid(rows@, tz@, human),
{
    let headers: Vec<String> = vec![
        "file".to_owned(),
        "symbol".to_owned(),
        "kind".to_owned(),
        "format".to_owned(),
        "frames".to_owned(),
        "first".to_owned(),
        "last".to_owned(),
        "granularity".to_owned(),
        "hours".to_owned(),
        "bytes".to_owned(),
    ];
    let aligns: Vec<bool> = vec![
        false,
        false,
        false,
        false,
        true,
        false,
        false,
        false,
        false,
        true,
    ];
    assert(crate::text::texts(headers@) =~= ls_headers());
    assert(aligns@ =~= ls_aligns());
    let mut cells: Vec<Vec<String>> = Vec::new();
    let mut i: usize = 0;
    while i < rows.len()
        invariant
            i <= rows.len(),
            cells@.len() == i,
            forall|j: int|
                0 <= j < i ==> crate::text::texts((#[trigger] cells@[j])@) == ls_cells(
                    rows@[j],
                    tz@,
                    human,
                ),
        decreases rows.len() - i,
    {
        cells.push(row_cells(&rows[i], tz, human));
        i += 1;
    }
    let table = Table { headers, aligns, rows: cells };
    proof {
        assert(crate::output::grid(table.rows@) =~= ls_grid(rows@, tz@, human));
        assert forall|j: int| 0 <= j < table.rows@.len() implies (#[trigger] table.rows@[j])@.len()
            <= table.headers@.len() by {
            assert(crate::text::texts(table.rows@[j]@).len() == 10);
        }
    }
    table
}

/// Renders `rows` in the chosen `format`, with times in `tz`.
pub fn write_ls(rows: &Vec<LsRow>, format: LsFormat, tz: &Zone) -> (r: String)
    ensures
        r@ == ls_text(rows@, format, tz@),
{
    match format {
        LsFormat::JsonLines => {
            let mut out = String::new();
            let mut i: usize = 0;
            while i < rows.len()
                invariant
                    i <= rows.len(),
                    out@ == json_lines(rows@.take(i as int), tz@),
                decreases rows.len() - i,
            {
                let ghost before = out@;
                out.append(json_row(&rows[i], tz).as_str());
                out.push('\n');
                proof {
                    assert(rows@.take(i + 1).drop_last() =~= rows@.take(i as int));
                    assert(out@ =~= json_lines(rows@.take(i + 1), tz@));
                }
                i += 1;
            }
            assert(rows@.take(i as int) =~= rows@);
            out
        },
        LsFormat::Table => ls_table(rows, tz, true).render_table(),
        LsFormat::Markdown => ls_table(rows, tz, true).render_markdown(),
        LsFormat::Csv => ls_table(rows, tz, false).render_csv(),
    }
}

} // verus!
