//! Rendering of analysis results.
//!
//! `stat` and `ls` are per-file summaries (not frames) and share a small table renderer with tight,
//! scan-based widths. `bars` and `calc` go out as frames; what is decided here is which rows carry a
//! symbol column and how encoded rows are batched for a file.
use vstd::prelude::*;

use crate::average::quotient;
use crate::civil::Zone;
use crate::model::{Bar, Vwap};
use crate::text::{chars_of, has_char, join, push_spaces, replace, same, text_of, to_decimal, trim_end};

verus! {

/// Maximum number of symbols that can share one interleaved table (1-byte symbol index).
pub const MAX_SYMBOLS: usize = 256;

/// The text formats that frames can be rendered in.
#[derive(Debug, Clone, Copy, PartialEq, Eq, Structural)]
pub enum FrameFormat {
    Raw,
    Table,
    Markdown,
    Csv,
    JsonLines,
    Hex,
}

/// Output target selected by a positional token: a text format (`table` default, plus `csv`, `md`,
/// `jsonl`, `raw`, `hex`), or `fwob` for `.fwob` files.
#[derive(Debug, Clone, Copy, PartialEq, Eq, Structural)]
pub enum AnalysisFormat {
    Frame(FrameFormat),
    Fwob,
}

/// The text format that a token names.
pub open spec fn frame_format_named(value: Seq<char>) -> Option<FrameFormat> {
    if value == "raw"@ {
        Some(FrameFormat::Raw)
    } else if value == "table"@ {
        Some(FrameFormat::Table)
    } else if value == "md"@ {
        Some(FrameFormat::Markdown)
    } else if value == "csv"@ {
        Some(FrameFormat::Csv)
    } else if value == "jsonl"@ {
        Some(FrameFormat::JsonLines)
    } else if value == "hex"@ {
        Some(FrameFormat::Hex)
    } else {
        None
    }
}

/// `fwob::formatting::FrameFormat::parse`: the format whose token the value is, case-sensitively.
#[verifier::external_body]
fn parse_frame_format(value: &str) -> (r: Option<FrameFormat>)
    ensures
        r == frame_format_named(value@),
{
    match fwob::formatting::FrameFormat::parse(value)? {
        fwob::formatting::FrameFormat::Raw => Some(FrameFormat::Raw),
        fwob::formatting::FrameFormat::Table => Some(FrameFormat::Table),
        fwob::formatting::FrameFormat::Markdown => Some(FrameFormat::Markdown),
        fwob::formatting::FrameFormat::Csv => Some(FrameFormat::Csv),
        fwob::formatting::FrameFormat::JsonLines => Some(FrameFormat::JsonLines),
        fwob::formatting::FrameFormat::Hex => Some(FrameFormat::Hex),
    }
}

impl FrameFormat {
    /// The token of a format.
    pub open spec fn token(self) -> Seq<char> {
        match self {
            FrameFormat::Raw => "raw"@,
            FrameFormat::Table => "table"@,
            FrameFormat::Markdown => "md"@,
            FrameFormat::Csv => "csv"@,
            FrameFormat::JsonLines => "jsonl"@,
            FrameFormat::Hex => "hex"@,
        }
    }

    /// The format that a token names.
    pub fn parse(value: &str) -> (r: Option<FrameFormat>)
        ensures
            r == frame_format_named(value@),
    {
        parse_frame_format(value)
    }

    /// The token of a format.
    pub fn as_str(self) -> (r: &'static str)
        ensures
            r@ == self.token(),
    {
        match self {
            FrameFormat::Raw => "raw",
            FrameFormat::Table => "table",
            FrameFormat::Markdown => "md",
            FrameFormat::Csv => "csv",
            FrameFormat::JsonLines => "jsonl",
            FrameFormat::Hex => "hex",
        }
    }
}

impl Default for AnalysisFormat {
    fn default() -> (r: Self)
        ensures
            r == AnalysisFormat::Frame(FrameFormat::Table),
    {
        AnalysisFormat::Frame(FrameFormat::Table)
    }
}

impl AnalysisFormat {
    /// The output target that a token names.
    pub open spec fn named(value: Seq<char>) -> Option<AnalysisFormat> {
        if value == "fwob"@ {
            Some(AnalysisFormat::Fwob)
        } else {
            match frame_format_named(value) {
                Some(format) => Some(AnalysisFormat::Frame(format)),
                None => None,
            }
        }
    }

    pub fn parse(value: &str) -> (r: Option<Self>)
        ensures
            r == AnalysisFormat::named(value@),
    {
        if same(value, "fwob") {
            return Some(AnalysisFormat::Fwob);
        }
        match parse_frame_format(value) {
            Some(format) => Some(AnalysisFormat::Frame(format)),
            None => None,
        }
    }
}

/// Every format is the one its own token names.
pub proof fn format_tokens_parse_back(format: FrameFormat)
    ensures
        frame_format_named(format.token()) == Some(format),
        AnalysisFormat::named(format.token()) == Some(AnalysisFormat::Frame(format)),
{
    reveal_strlit("raw");
    reveal_strlit("table");
    reveal_strlit("md");
    reveal_strlit("csv");
    reveal_strlit("jsonl");
    reveal_strlit("hex");
    reveal_strlit("fwob");
    assert("raw"@[0] == 'r' && "table"@[0] == 't' && "md"@[0] == 'm' && "csv"@[0] == 'c');
    assert("jsonl"@[0] == 'j' && "hex"@[0] == 'h' && "fwob"@[0] == 'f');
}

// ---- numbers, prices and times --------------------------------------------------

/// Digits in groups of three, counted from the end, with commas between.
pub open spec fn grouped(digits: Seq<char>) -> Seq<char>
    decreases digits.len(),
{
    if digits.len() <= 3 {
        digits
    } else {
        grouped(digits.take(digits.len() - 3)).push(',') + digits.skip(digits.len() - 3)
    }
}

pub open spec fn without_commas(s: Seq<char>) -> Seq<char> {
    crate::text::replaced(s, ',', Seq::empty())
}

proof fn lemma_without_commas_append(a: Seq<char>, b: Seq<char>)
    ensures
        without_commas(a + b) == without_commas(a) + without_commas(b),
    decreases b.len(),
{
    if b.len() == 0 {
        assert(a + b =~= a);
    } else {
        lemma_without_commas_append(a, b.drop_last());
        assert((a + b).drop_last() =~= a + b.drop_last());
        let (x, y) = (without_commas(a), without_commas(b.drop_last()));
        if b.last() == ',' {
            assert((x + y) + Seq::<char>::empty() =~= x + (y + Seq::<char>::empty()));
        } else {
            assert((x + y).push(b.last()) =~= x + y.push(b.last()));
        }
    }
}

proof fn lemma_digits_have_no_commas(digits: Seq<char>)
    requires
        crate::text::all_digits(digits),
    ensures
        without_commas(digits) == digits,
    decreases digits.len(),
{
    if digits.len() > 0 {
        assert(crate::text::is_digit(digits.last()));
        assert forall|i: int| 0 <= i < digits.drop_last().len() implies crate::text::is_digit(
            #[trigger] digits.drop_last()[i],
        ) by {
            assert(crate::text::is_digit(digits[i]));
        }
        lemma_digits_have_no_commas(digits.drop_last());
        assert(digits.drop_last().push(digits.last()) =~= digits);
    }
}

/// Grouping only adds commas: taking them out again leaves the digits.
pub proof fn grouping_keeps_the_digits(digits: Seq<char>)
    requires
        crate::text::all_digits(digits),
    ensures
        without_commas(grouped(digits)) == digits,
    decreases digits.len(),
{
    if digits.len() <= 3 {
        lemma_digits_have_no_commas(digits);
    } else {
        let n = digits.len() - 3;
        let (a, b) = (digits.take(n), digits.skip(n));
        assert forall|i: int| 0 <= i < a.len() implies crate::text::is_digit(#[trigger] a[i]) by {
            assert(crate::text::is_digit(digits[i]));
        }
        assert forall|i: int| 0 <= i < b.len() implies crate::text::is_digit(#[trigger] b[i]) by {
            assert(crate::text::is_digit(digits[n + i]));
        }
        grouping_keeps_the_digits(a);
        lemma_digits_have_no_commas(b);
        lemma_without_commas_append(grouped(a).push(','), b);
        assert(grouped(a).push(',').drop_last() =~= grouped(a));
        assert(a + Seq::<char>::empty() =~= a);
        assert(a + b =~= digits);
    }
}

/// Digits in groups of three, with commas between.
pub fn comma_group(digits: &str) -> (r: String)
    requires
        crate::text::all_digits(digits@),
    ensures
        r@ == grouped(digits@),
{
    let chars = chars_of(digits);
    group(chars.as_slice())
}

fn group(chars: &[char]) -> (r: String)
    ensures
        r@ == grouped(chars@),
    decreases chars@.len(),
{
    if chars.len() <= 3 {
        return text_of(chars);
    }
    let n: usize = chars.len() - 3;
    let head = vstd::slice::slice_subrange(chars, 0, n);
    let tail = vstd::slice::slice_subrange(chars, n, chars.len());
    assert(head@ =~= chars@.take(n as int));
    assert(tail@ =~= chars@.skip(n as int));
    let mut out = group(head);
    out.push(',');
    out.append(text_of(tail).as_str());
    out
}

/// A number with its digits grouped.
pub open spec fn comma_text(value: int) -> Seq<char> {
    if value < 0 {
        seq!['-'] + grouped(crate::text::decimal((-value) as nat))
    } else {
        grouped(crate::text::decimal(value as nat))
    }
}

fn comma_wide(negative: bool, magnitude: u128) -> (r: String)
    ensures
        r@ == (if negative {
            seq!['-']
        } else {
            Seq::empty()
        }) + grouped(crate::text::decimal(magnitude as nat)),
{
    let mut out = String::new();
    if negative {
        out.push('-');
    }
    let digits = to_decimal(magnitude);
    proof {
        crate::text::lemma_decimal_digits(magnitude as nat);
    }
    out.append(comma_group(digits.as_str()).as_str());
    assert(out@ =~= (if negative {
        seq!['-']
    } else {
        Seq::empty()
    }) + grouped(crate::text::decimal(magnitude as nat)));
    out
}

pub fn comma_i64(value: i64) -> (r: String)
    ensures
        r@ == comma_text(value as int),
{
    let magnitude: u128 = if value < 0 {
        (-(value as i128)) as u128
    } else {
        value as u128
    };
    let out = comma_wide(value < 0, magnitude);
    assert(out@ =~= comma_text(value as int));
    out
}

pub fn comma_u64(value: u64) -> (r: String)
    ensures
        r@ == comma_text(value as int),
{
    let out = comma_wide(false, value as u128);
    assert(out@ =~= comma_text(value as int));
    out
}

/// The four decimals of a price.
pub open spec fn four_digits(n: int) -> Seq<char> {
    crate::civil::two_digits(n / 100) + crate::civil::two_digits(n % 100)
}

/// A number of price units in currency, to four decimals and with its whole part grouped.
pub open spec fn units_text(negative: bool, n: int) -> Seq<char> {
    (if negative {
        seq!['-']
    } else {
        Seq::empty()
    }) + grouped(crate::text::decimal((n / 10_000) as nat)) + seq!['.'] + four_digits(n % 10_000)
}

/// A price in currency; a dash for none.
pub open spec fn price_text(units: Option<int>) -> Seq<char> {
    match units {
        None => seq!['-'],
        Some(units) => units_text(
            units < 0,
            if units < 0 {
                -units
            } else {
                units
            },
        ),
    }
}

fn digit(n: u128) -> (r: char)
    requires
        n < 10,
    ensures
        r == crate::text::digit_char(n as nat),
{
    ('0' as u8 + n as u8) as char
}

fn write_units(negative: bool, n: u128) -> (r: String)
    ensures
        r@ == units_text(negative, n as int),
{
    let mut out = comma_wide(negative, n / 10_000);
    let f: u128 = n % 10_000;
    out.push('.');
    out.push(digit(f / 100 / 10));
    out.push(digit(f / 100 % 10));
    out.push(digit(f % 100 / 10));
    out.push(digit(f % 100 % 10));
    assert(out@ =~= units_text(negative, n as int));
    out
}

fn dash() -> (r: String)
    ensures
        r@ == seq!['-'],
{
    let mut out = String::new();
    out.push('-');
    assert(out@ =~= seq!['-']);
    out
}

/// The magnitude of a number.
fn magnitude(n: i128) -> (r: u128)
    ensures
        r == if n < 0 {
            -n
        } else {
            n as int
        },
{
    if n >= 0 {
        n as u128
    } else if n == i128::MIN {
        170_141_183_460_469_231_731_687_303_715_884_105_728
    } else {
        (-n) as u128
    }
}

/// Writes a price, held in price units, in currency to four decimals; `-` for none.
pub fn fmt_price(units: Option<i128>) -> (r: String)
    ensures
        r@ == price_text(
            match units {
                Some(units) => Some(units as int),
                None => None,
            },
        ),
{
    match units {
        Some(units) => write_units(units < 0, magnitude(units)),
        None => dash(),
    }
}

pub open spec fn absolute(n: int) -> int {
    if n < 0 {
        -n
    } else {
        n
    }
}

/// A volume-weighted average price in currency: the mass over the volume, as the double nearest to it
/// shows to four decimals; a dash without volume.
pub open spec fn vwap_text(vwap: Vwap, volume: int) -> Seq<char> {
    match vwap {
        Vwap::Undefined => seq!['-'],
        Vwap::Price(price) => units_text(false, price as int),
        Vwap::Mass(mass) => if volume == 0 {
            seq!['-']
        } else {
            units_text(
                mass != 0 && (mass < 0) != (volume < 0),
                crate::average::ten_thousandths(absolute(mass as int), 10_000 * absolute(volume)),
            )
        },
    }
}

/// Writes an average price in currency to four decimals; `-` without volume.
pub fn fmt_vwap(vwap: Vwap, volume: i64) -> (r: String)
    ensures
        r@ == vwap_text(vwap, volume as int),
{
    match vwap {
        Vwap::Undefined => dash(),
        Vwap::Price(price) => write_units(false, price as u128),
        Vwap::Mass(mass) => {
            if volume == 0 {
                return dash();
            }
            let average: u128 = quotient(magnitude(mass), 10_000 * magnitude(volume as i128));
            write_units(mass != 0 && (mass < 0) != (volume < 0), average)
        },
    }
}

/// An instant in `UTC`, as `2018-04-03T08:00:00Z`.
pub fn fmt_dt(epoch: u32) -> (r: String)
    ensures
        r@ == crate::civil::clock_text("UTC"@, epoch as int) + seq!['Z'],
{
    Zone::utc().stamp_z(epoch)
}

/// Formats a UTC epoch second as an RFC3339 timestamp in `tz`, carrying a numeric offset (e.g.
/// `2015-01-02T09:30:00-05:00`). Used by `inspect`/`verify` so timestamps honor the exchange
/// timezone instead of bare UTC.
pub fn format_epoch_tz(epoch: u32, tz: &Zone) -> (r: String)
    ensures
        r@ == stamp_text(tz@, epoch as int),
{
    tz.stamp(epoch)
}

/// An instant as an RFC 3339 timestamp in a zone.
pub open spec fn stamp_text(zone: Seq<char>, epoch: int) -> Seq<char> {
    crate::civil::clock_text(zone, epoch) + crate::civil::offset_text(
        crate::civil::zone_offset(zone, epoch),
    )
}

/// A time for people, or the bare epoch second.
pub open spec fn time_text(epoch: int, human: bool) -> Seq<char> {
    if human {
        crate::civil::clock_text("UTC"@, epoch) + seq!['Z']
    } else {
        crate::text::decimal(epoch as nat)
    }
}

pub fn fmt_time(epoch: u32, human: bool) -> (r: String)
    ensures
        r@ == time_text(epoch as int, human),
{
    if human {
        fmt_dt(epoch)
    } else {
        to_decimal(epoch as u128)
    }
}

/// A time, or a dash for none.
pub fn opt_time(value: Option<u32>, human: bool) -> (r: String)
    ensures
        r@ == match value {
            Some(epoch) => time_text(epoch as int, human),
            None => seq!['-'],
        },
{
    match value {
        Some(epoch) => fmt_time(epoch, human),
        None => dash(),
    }
}

// ---- tables ----------------------------------------------------------------------

/// Rows of text cells under headers. `aligns[i]` right-justifies column `i`.
#[derive(Debug)]
pub struct Table {
    pub headers: Vec<String>,
    pub aligns: Vec<bool>,
    pub rows: Vec<Vec<String>>,
}

/// The cells of a table as text.
pub open spec fn grid(rows: Seq<Vec<String>>) -> Seq<Seq<Seq<char>>> {
    rows.map_values(|row: Vec<String>| crate::text::texts(row@))
}

/// The width of a column: that of its widest cell, header included.
pub open spec fn column_width(headers: Seq<Seq<char>>, rows: Seq<Seq<Seq<char>>>, i: int) -> int
    decreases rows.len(),
{
    if rows.len() == 0 {
        headers[i].len() as int
    } else {
        let above = column_width(headers, rows.drop_last(), i);
        if i < rows.last().len() && rows.last()[i].len() > above {
            rows.last()[i].len() as int
        } else {
            above
        }
    }
}

pub open spec fn column_widths(headers: Seq<Seq<char>>, rows: Seq<Seq<Seq<char>>>) -> Seq<int> {
    Seq::new(headers.len(), |i: int| column_width(headers, rows, i))
}

/// A cell filled up to a width.
pub open spec fn padded(cell: Seq<char>, width: int, right: bool) -> Seq<char> {
    let pad = crate::text::spaces(width - cell.len());
    if right {
        pad + cell
    } else {
        cell + pad
    }
}

/// Cells filled up to their columns' widths, two spaces apart.
pub open spec fn padded_cells(row: Seq<Seq<char>>, widths: Seq<int>, aligns: Seq<bool>) -> Seq<char>
    decreases row.len(),
{
    if row.len() == 0 {
        Seq::empty()
    } else {
        let i = row.len() - 1;
        padded_cells(row.drop_last(), widths, aligns) + crate::text::spaces(
            if i > 0 {
                2
            } else {
                0
            },
        ) + padded(row.last(), widths[i], aligns[i])
    }
}

/// One line of a table: the padded cells without white space at the end.
pub open spec fn table_line(row: Seq<Seq<char>>, widths: Seq<int>, aligns: Seq<bool>) -> Seq<char> {
    crate::text::end_trimmed(padded_cells(row, widths, aligns)).push('\n')
}

pub open spec fn table_lines(
    rows: Seq<Seq<Seq<char>>>,
    widths: Seq<int>,
    aligns: Seq<bool>,
) -> Seq<char>
    decreases rows.len(),
{
    if rows.len() == 0 {
        Seq::empty()
    } else {
        table_lines(rows.drop_last(), widths, aligns) + table_line(rows.last(), widths, aligns)
    }
}

/// A table as aligned text.
pub open spec fn table_text(
    headers: Seq<Seq<char>>,
    aligns: Seq<bool>,
    rows: Seq<Seq<Seq<char>>>,
) -> Seq<char> {
    let widths = column_widths(headers, rows);
    table_line(headers, widths, aligns) + table_lines(rows, widths, aligns)
}

/// No line of a table ends in white space before its line break.
pub proof fn table_lines_end_clean(row: Seq<Seq<char>>, widths: Seq<int>, aligns: Seq<bool>)
    ensures
        ({
            let line = table_line(row, widths, aligns);
            &&& line.len() >= 1
            &&& line.last() == '\n'
            &&& line.len() >= 2 ==> !crate::text::is_space(line[line.len() - 2])
        }),
{
    crate::text::trimmed_ends_clean(padded_cells(row, widths, aligns));
}

/// A row of a Markdown table.
pub open spec fn markdown_line(cells: Seq<Seq<char>>) -> Seq<char> {
    "| "@ + crate::text::joined(cells, " | "@) + " |\n"@
}

/// The cells of a Markdown row, their bars escaped.
pub open spec fn escaped_cells(cells: Seq<Seq<char>>) -> Seq<Seq<char>> {
    cells.map_values(|cell: Seq<char>| crate::text::replaced(cell, '|', "\\|"@))
}

/// The rule under a Markdown table's headers, with a colon for a right-justified column.
pub open spec fn markdown_rule(aligns: Seq<bool>) -> Seq<Seq<char>> {
    aligns.map_values(
        |right: bool|
            if right {
                "---:"@
            } else {
                "---"@
            },
    )
}

pub open spec fn markdown_lines(rows: Seq<Seq<Seq<char>>>) -> Seq<char>
    decreases rows.len(),
{
    if rows.len() == 0 {
        Seq::empty()
    } else {
        markdown_lines(rows.drop_last()) + markdown_line(escaped_cells(rows.last()))
    }
}

/// A table as Markdown.
pub open spec fn markdown_text(
    headers: Seq<Seq<char>>,
    aligns: Seq<bool>,
    rows: Seq<Seq<Seq<char>>>,
) -> Seq<char> {
    markdown_line(headers) + markdown_line(markdown_rule(aligns)) + markdown_lines(rows)
}

/// Whether a CSV field has to be quoted.
pub open spec fn needs_quotes(value: Seq<char>) -> bool {
    value.contains(',') || value.contains('"') || value.contains('\r') || value.contains('\n')
}

/// A CSV field: as it is, or in quotes with its own quotes doubled.
pub open spec fn csv_text(value: Seq<char>) -> Seq<char> {
    if needs_quotes(value) {
        seq!['"'] + crate::text::replaced(value, '"', seq!['"', '"']) + seq!['"']
    } else {
        value
    }
}

pub open spec fn csv_cells(cells: Seq<Seq<char>>) -> Seq<Seq<char>> {
    cells.map_values(|cell: Seq<char>| csv_text(cell))
}

pub open spec fn csv_line(cells: Seq<Seq<char>>) -> Seq<char> {
    crate::text::joined(cells, ","@).push('\n')
}

pub open spec fn csv_lines(rows: Seq<Seq<Seq<char>>>) -> Seq<char>
    decreases rows.len(),
{
    if rows.len() == 0 {
        Seq::empty()
    } else {
        csv_lines(rows.drop_last()) + csv_line(csv_cells(rows.last()))
    }
}

/// A table as CSV.
pub open spec fn csv_table_text(headers: Seq<Seq<char>>, rows: Seq<Seq<Seq<char>>>) -> Seq<char> {
    csv_line(headers) + csv_lines(rows)
}

/// A CSV field as a reader takes it: quotes off, doubled quotes made single.
pub open spec fn csv_value(field: Seq<char>) -> Seq<char> {
    if field.len() >= 2 && field[0] == '"' {
        single_quotes(field.subrange(1, field.len() - 1))
    } else {
        field
    }
}

/// Doubled quotes made single.
pub open spec fn single_quotes(s: Seq<char>) -> Seq<char>
    decreases s.len(),
{
    if s.len() == 0 {
        Seq::empty()
    } else if s.len() >= 2 && s.last() == '"' && s[s.len() - 2] == '"' {
        single_quotes(s.take(s.len() - 2)).push('"')
    } else {
        single_quotes(s.drop_last()).push(s.last())
    }
}

proof fn lemma_quotes_undouble(value: Seq<char>)
    ensures
        single_quotes(crate::text::replaced(value, '"', seq!['"', '"'])) == value,
    decreases value.len(),
{
    if value.len() > 0 {
        let before = value.drop_last();
        let d = crate::text::replaced(before, '"', seq!['"', '"']);
        lemma_quotes_undouble(before);
        if value.last() == '"' {
            let s = d + seq!['"', '"'];
            assert(s.take(s.len() - 2) =~= d);
            assert(single_quotes(s) == single_quotes(d).push('"'));
        } else {
            let s = d.push(value.last());
            assert(s.drop_last() =~= d);
        }
        assert(before.push(value.last()) =~= value);
    }
}

/// A field reads back as the value it was written from.
pub proof fn csv_fields_read_back(value: Seq<char>)
    ensures
        csv_value(csv_text(value)) == value,
{
    if needs_quotes(value) {
        let d = crate::text::replaced(value, '"', seq!['"', '"']);
        let f = csv_text(value);
        assert(f.subrange(1, f.len() - 1) =~= d);
        lemma_quotes_undouble(value);
    } else if value.len() >= 1 {
        assert(value.contains(value[0]));
    }
}

/// Quotes a CSV field where it has to be.
pub fn csv_field(value: &str) -> (r: String)
    ensures
        r@ == csv_text(value@),
{
    if has_char(value, ',') || has_char(value, '"') || has_char(value, '\r') || has_char(
        value,
        '\n',
    ) {
        let mut out = String::new();
        out.push('"');
        let inner = replace(value, '"', "\"\"");
        proof {
            reveal_strlit("\"\"");
            assert("\"\""@ =~= seq!['"', '"']);
        }
        out.append(inner.as_str());
        out.push('"');
        assert(out@ =~= csv_text(value@));
        out
    } else {
        value.to_owned()
    }
}

/// Appends one line of a table.
pub fn push_padded(out: &mut String, row: &Vec<String>, widths: &Vec<usize>, aligns: &Vec<bool>)
    requires
        row@.len() <= widths@.len(),
        row@.len() <= aligns@.len(),
    ensures
        final(out)@ == old(out)@ + table_line(
            crate::text::texts(row@),
            whole(widths@),
            aligns@,
        ),
{
    let mut line = String::new();
    let ghost cells = crate::text::texts(row@);
    let ghost w = whole(widths@);
    let mut i: usize = 0;
    while i < row.len()
        invariant
            i <= row.len(),
            row@.len() <= widths@.len(),
            row@.len() <= aligns@.len(),
            cells == crate::text::texts(row@),
            w == whole(widths@),
            line@ == padded_cells(cells.take(i as int), w, aligns@),
        decreases row.len() - i,
    {
        let ghost before = line@;
        if i > 0 {
            push_spaces(&mut line, 2);
        }
        let cell = row[i].as_str();
        let length: usize = cell.unicode_len();
        let pad: usize = if widths[i] > length {
            widths[i] - length
        } else {
            0
        };
        if aligns[i] {
            push_spaces(&mut line, pad);
            line.append(cell);
        } else {
            line.append(cell);
            push_spaces(&mut line, pad);
        }
        proof {
            assert(cells.take(i + 1).drop_last() =~= cells.take(i as int));
            assert(cells.take(i + 1).last() == cell@);
            assert(crate::text::spaces(w[i as int] - cell@.len()) =~= crate::text::spaces(
                pad as int,
            ));
            assert(line@ =~= padded_cells(cells.take(i + 1), w, aligns@));
        }
        i += 1;
    }
    assert(cells.take(i as int) =~= cells);
    let ghost before = out@;
    let trimmed = trim_end(line.as_str());
    out.append(trimmed.as_str());
    out.push('\n');
    assert(out@ =~= before + table_line(cells, w, aligns@));
}

/// Machine widths as whole numbers.
pub open spec fn whole(widths: Seq<usize>) -> Seq<int> {
    widths.map_values(|w: usize| w as int)
}

impl Table {
    /// Each row has no more cells than there are headers, and each header an alignment.
    pub open spec fn regular(&self) -> bool {
        &&& self.headers@.len() <= self.aligns@.len()
        &&& forall|i: int| 0 <= i < self.rows@.len() ==> (#[trigger] self.rows@[i])@.len()
            <= self.headers@.len()
    }

    /// The width of each column.
    pub fn widths(&self) -> (r: Vec<usize>)
        requires
            self.regular(),
        ensures
            whole(r@) == column_widths(crate::text::texts(self.headers@), grid(self.rows@)),
    {
        let mut widths: Vec<usize> = Vec::new();
        let ghost headers = crate::text::texts(self.headers@);
        let ghost rows = grid(self.rows@);
        let mut i: usize = 0;
        while i < self.headers.len()
            invariant
                i <= self.headers.len(),
                headers == crate::text::texts(self.headers@),
                widths@.len() == i,
                forall|j: int| 0 <= j < i ==> #[trigger] widths@[j] == headers[j].len(),
            decreases self.headers.len() - i,
        {
            widths.push(self.headers[i].as_str().unicode_len());
            i += 1;
        }
        let mut k: usize = 0;
        while k < self.rows.len()
            invariant
                k <= self.rows.len(),
                self.regular(),
                headers == crate::text::texts(self.headers@),
                rows == grid(self.rows@),
                widths@.len() == headers.len(),
                forall|j: int|
                    0 <= j < headers.len() ==> #[trigger] widths@[j] == column_width(
                        headers,
                        rows.take(k as int),
                        j,
                    ),
            decreases self.rows.len() - k,
        {
            let row = &self.rows[k];
            widen(&mut widths, row);
            proof {
                assert(rows.take(k + 1).drop_last() =~= rows.take(k as int));
                assert(rows.take(k + 1).last() == crate::text::texts(row@));
            }
            k += 1;
        }
        assert(rows.take(k as int) =~= rows);
        assert(whole(widths@) =~= column_widths(headers, rows));
        widths
    }

    pub fn render_table(&self) -> (r: String)
        requires
            self.regular(),
        ensures
            r@ == table_text(
                crate::text::texts(self.headers@),
                self.aligns@,
                grid(self.rows@),
            ),
    {
        let widths = self.widths();
        assert(whole(widths@).len() == self.headers@.len());
        let mut out = String::new();
        push_padded(&mut out, &self.headers, &widths, &self.aligns);
        let ghost rows = grid(self.rows@);
        let ghost w = whole(widths@);
        let ghost head = out@;
        let mut k: usize = 0;
        proof {
            assert(w.len() == self.headers@.len());
            assert(head =~= table_line(crate::text::texts(self.headers@), w, self.aligns@));
        }
        while k < self.rows.len()
            invariant
                k <= self.rows.len(),
                self.regular(),
                widths@.len() == self.headers@.len(),
                rows == grid(self.rows@),
                w == whole(widths@),
                out@ == head + table_lines(rows.take(k as int), w, self.aligns@),
            decreases self.rows.len() - k,
        {
            let row = &self.rows[k];
            push_padded(&mut out, row, &widths, &self.aligns);
            proof {
                assert(rows.take(k + 1).drop_last() =~= rows.take(k as int));
                assert(rows.take(k + 1).last() == crate::text::texts(row@));
                assert(out@ =~= head + table_lines(rows.take(k + 1), w, self.aligns@));
            }
            k += 1;
        }
        assert(rows.take(k as int) =~= rows);
        out
    }

    pub fn render_markdown(&self) -> (r: String)
        ensures
            r@ == markdown_text(
                crate::text::texts(self.headers@),
                self.aligns@,
                grid(self.rows@),
            ),
    {
        let mut out = String::new();
        push_markdown(&mut out, &self.headers);
        let mut rule: Vec<String> = Vec::new();
        let mut i: usize = 0;
        while i < self.aligns.len()
            invariant
                i <= self.aligns.len(),
                crate::text::texts(rule@) == markdown_rule(self.aligns@.take(i as int)),
            decreases self.aligns.len() - i,
        {
            let ghost before = rule@;
            if self.aligns[i] {
                rule.push("---:".to_owned());
            } else {
                rule.push("---".to_owned());
            }
            assert(crate::text::texts(rule@) =~= markdown_rule(self.aligns@.take(i + 1))) by {
                assert(crate::text::texts(rule@).drop_last() =~= crate::text::texts(before));
                assert(markdown_rule(self.aligns@.take(i + 1)).drop_last() =~= markdown_rule(
                    self.aligns@.take(i as int),
                ));
                assert(crate::text::texts(rule@).last() == markdown_rule(
                    self.aligns@.take(i + 1),
                ).last());
                assert forall|j: int| 0 <= j < i + 1 implies crate::text::texts(rule@)[j]
                    == markdown_rule(self.aligns@.take(i + 1))[j] by {
                    if j < i {
                        assert(crate::text::texts(rule@).drop_last()[j] == markdown_rule(
                            self.aligns@.take(i + 1),
                        ).drop_last()[j]);
                    }
                }
            }
            i += 1;
        }
        assert(self.aligns@.take(i as int) =~= self.aligns@);
        push_markdown(&mut out, &rule);
        let ghost rows = grid(self.rows@);
        let ghost head = out@;
        assert(head =~= markdown_line(crate::text::texts(self.headers@)) + markdown_line(
            markdown_rule(self.aligns@),
        ));
        let mut k: usize = 0;
        while k < self.rows.len()
            invariant
                k <= self.rows.len(),
                rows == grid(self.rows@),
                out@ == head + markdown_lines(rows.take(k as int)),
            decreases self.rows.len() - k,
        {
            let row = &self.rows[k];
            let cells = escape_all(row);
            push_markdown(&mut out, &cells);
            proof {
                assert(rows.take(k + 1).drop_last() =~= rows.take(k as int));
                assert(rows.take(k + 1).last() == crate::text::texts(row@));
                assert(out@ =~= head + markdown_lines(rows.take(k + 1)));
            }
            k += 1;
        }
        assert(rows.take(k as int) =~= rows);
        out
    }

    pub fn render_csv(&self) -> (r: String)
        ensures
            r@ == csv_table_text(crate::text::texts(self.headers@), grid(self.rows@)),
    {
        let mut out = join(&self.headers, ",");
        out.push('\n');
        let ghost rows = grid(self.rows@);
        let ghost head = out@;
        let mut k: usize = 0;
        while k < self.rows.len()
            invariant
                k <= self.rows.len(),
                rows == grid(self.rows@),
                out@ == head + csv_lines(rows.take(k as int)),
            decreases self.rows.len() - k,
        {
            let row = &self.rows[k];
            let cells = quote_all(row);
            out.append(join(&cells, ",").as_str());
            out.push('\n');
            proof {
                assert(rows.take(k + 1).drop_last() =~= rows.take(k as int));
                assert(rows.take(k + 1).last() == crate::text::texts(row@));
                assert(out@ =~= head + csv_lines(rows.take(k + 1)));
            }
            k += 1;
        }
        assert(rows.take(k as int) =~= rows);
        out
    }
}

/// Widens columns to hold a row.
pub(crate) fn widen(widths: &mut Vec<usize>, row: &Vec<String>)
    requires
        row@.len() <= old(widths)@.len(),
    ensures
        final(widths)@.len() == old(widths)@.len(),
        forall|j: int|
            0 <= j < old(widths)@.len() ==> #[trigger] final(widths)@[j] == (if j < row@.len()
                && row@[j]@.len() > old(widths)@[j] {
                row@[j]@.len() as usize
            } else {
                old(widths)@[j]
            }) && (j < row@.len() ==> row@[j]@.len() <= usize::MAX),
{
    let ghost before = widths@;
    let mut i: usize = 0;
    while i < row.len()
        invariant
            i <= row.len(),
            row@.len() <= before.len(),
            widths@.len() == before.len(),
            forall|j: int|
                0 <= j < before.len() ==> #[trigger] widths@[j] == (if j < i && row@[j]@.len()
                    > before[j] {
                    row@[j]@.len() as usize
                } else {
                    before[j]
                }),
            forall|j: int| 0 <= j < i ==> (#[trigger] row@[j])@.len() <= usize::MAX,
        decreases row.len() - i,
    {
        let length: usize = row[i].as_str().unicode_len();
        if length > widths[i] {
            widths.set(i, length);
        }
        i += 1;
    }
}

fn push_markdown(out: &mut String, cells: &Vec<String>)
    ensures
        final(out)@ == old(out)@ + markdown_line(crate::text::texts(cells@)),
{
    let ghost before = out@;
    out.append("| ");
    out.append(join(cells, " | ").as_str());
    out.append(" |\n");
    assert(out@ =~= before + markdown_line(crate::text::texts(cells@)));
}

fn escape_all(row: &Vec<String>) -> (r: Vec<String>)
    ensures
        crate::text::texts(r@) == escaped_cells(crate::text::texts(row@)),
{
    let mut out: Vec<String> = Vec::new();
    let mut i: usize = 0;
    while i < row.len()
        invariant
            i <= row.len(),
            out@.len() == i,
            forall|j: int|
                0 <= j < i ==> (#[trigger] out@[j])@ == crate::text::replaced(
                    row@[j]@,
                    '|',
                    "\\|"@,
                ),
        decreases row.len() - i,
    {
        out.push(replace(row[i].as_str(), '|', "\\|"));
        i += 1;
    }
    assert(crate::text::texts(out@) =~= escaped_cells(crate::text::texts(row@)));
    out
}

fn quote_all(row: &Vec<String>) -> (r: Vec<String>)
    ensures
        crate::text::texts(r@) == csv_cells(crate::text::texts(row@)),
{
    let mut out: Vec<String> = Vec::new();
    let mut i: usize = 0;
    while i < row.len()
        invariant
            i <= row.len(),
            out@.len() == i,
            forall|j: int| 0 <= j < i ==> (#[trigger] out@[j])@ == csv_text(row@[j]@),
        decreases row.len() - i,
    {
        out.push(csv_field(row[i].as_str()));
        i += 1;
    }
    assert(crate::text::texts(out@) =~= csv_cells(crate::text::texts(row@)));
    out
}

// ---- bars and calc rows ------------------------------------------------------------

/// A derived bar series for one symbol.
#[derive(Debug)]
pub struct BarSeries {
    pub symbol: String,
    pub bars: Vec<Bar>,
}

/// More symbols than the symbol column of one table supports.
#[derive(Debug, Clone, Copy, PartialEq, Eq, Structural)]
pub struct TooManySymbols {
    pub count: usize,
}

impl TooManySymbols {
    /// What is wrong, in words.
    pub open spec fn message_text(self) -> Seq<char> {
        "cannot render "@ + crate::text::decimal(self.count as nat)
            + " symbols in one table; the symbol column supports at most 256"@
    }

    /// What is wrong, in words.
    pub fn message(self) -> (r: String)
        ensures
            r@ == self.message_text(),
    {
        let mut out = "cannot render ".to_owned();
        out.append(to_decimal(self.count as u128).as_str());
        out.append(" symbols in one table; the symbol column supports at most 256");
        out
    }
}

/// Refuses a table whose symbols cannot all be told apart by a one-byte index.
pub fn guard_symbol_count(include_symbol: bool, count: usize) -> (r: Result<(), TooManySymbols>)
    ensures
        r == if include_symbol && count > MAX_SYMBOLS {
            Err::<(), TooManySymbols>(TooManySymbols { count })
        } else {
            Ok(())
        },
{
    if include_symbol && count > MAX_SYMBOLS {
        return Err(TooManySymbols { count });
    }
    Ok(())
}

/// What a table of bars is made of: the strings of its symbol column (none for a single series,
/// which has no such column), and the rows in order, each with its series.
#[derive(Debug)]
pub struct BarRows {
    pub strings: Vec<String>,
    pub rows: Vec<(usize, Bar)>,
}

/// The symbols of several series.
pub open spec fn series_symbols(series: Seq<BarSeries>) -> Seq<Seq<char>> {
    series.map_values(|s: BarSeries| s.symbol@)
}

/// All bars, series by series, each with the number of its series.
pub open spec fn series_rows(series: Seq<BarSeries>) -> Seq<(usize, Bar)>
    decreases series.len(),
{
    if series.len() == 0 {
        Seq::empty()
    } else {
        let index = series.len() - 1;
        series_rows(series.drop_last()) + series.last().bars@.map_values(
            |bar: Bar| (index as usize, bar),
        )
    }
}

/// Lays the rows of a bar table out. Several series share one table through a symbol column.
pub fn bar_rows(series: &Vec<BarSeries>) -> (r: Result<BarRows, TooManySymbols>)
    ensures
        series@.len() > MAX_SYMBOLS ==> r == Err::<BarRows, TooManySymbols>(
            TooManySymbols { count: series@.len() as usize },
        ),
        series@.len() <= MAX_SYMBOLS ==> (r matches Ok(table) && crate::text::texts(
            table.strings@,
        ) == (if series@.len() > 1 {
            series_symbols(series@)
        } else {
            Seq::empty()
        }) && table.rows@ == series_rows(series@)),
{
    let include_symbol = series.len() > 1;
    match guard_symbol_count(include_symbol, series.len()) {
        Err(e) => return Err(e),
        Ok(_) => {},
    }
    let mut strings: Vec<String> = Vec::new();
    let mut rows: Vec<(usize, Bar)> = Vec::new();
    let mut k: usize = 0;
    while k < series.len()
        invariant
            k <= series.len(),
            include_symbol == (series@.len() > 1),
            include_symbol ==> strings@.len() == k && forall|j: int|
                0 <= j < k ==> (#[trigger] strings@[j])@ == series@[j].symbol@,
            !include_symbol ==> strings@.len() == 0,
            rows@ == series_rows(series@.take(k as int)),
        decreases series.len() - k,
    {
        let one = &series[k];
        if include_symbol {
            strings.push(one.symbol.clone());
        }
        let ghost before = rows@;
        let ghost f = |bar: Bar| (k, bar);
        let mut i: usize = 0;
        while i < one.bars.len()
            invariant
                i <= one.bars.len(),
                f == |bar: Bar| (k, bar),
                rows@ == before + one.bars@.take(i as int).map_values(f),
            decreases one.bars.len() - i,
        {
            rows.push((k, one.bars[i]));
            assert(rows@ =~= before + one.bars@.take(i + 1).map_values(f));
            i += 1;
        }
        proof {
            assert(one.bars@.take(i as int) =~= one.bars@);
            assert(series@.take(k + 1).drop_last() =~= series@.take(k as int));
            assert(one.bars@.map_values(f) =~= one.bars@.map_values(
                |bar: Bar| ((series@.take(k + 1).len() - 1) as usize, bar),
            ));
        }
        k += 1;
    }
    proof {
        assert(series@.take(k as int) =~= series@);
        if include_symbol {
            assert(crate::text::texts(strings@) =~= series_symbols(series@));
        } else {
            assert(crate::text::texts(strings@) =~= Seq::empty());
        }
    }
    Ok(BarRows { strings, rows })
}

/// The bytes of one row as a frame: behind its symbol's index where the table has a symbol column.
pub fn row_frame(include_symbol: bool, symbol_index: usize, payload: &Vec<u8>) -> (r: Vec<u8>)
    requires
        include_symbol ==> symbol_index < MAX_SYMBOLS,
    ensures
        r@ == if include_symbol {
            seq![symbol_index as u8] + payload@
        } else {
            payload@
        },
{
    let mut out: Vec<u8> = Vec::new();
    if include_symbol {
        out.push(symbol_index as u8);
    }
    let mut rest = payload.clone();
    out.append(&mut rest);
    assert(out@ =~= if include_symbol {
        seq![symbol_index as u8] + payload@
    } else {
        payload@
    });
    out
}

/// Encoded rows gathered into batches, so that a whole-history conversion never holds the entire
/// series in memory.
#[derive(Debug)]
pub struct FrameBatch {
    buf: Vec<u8>,
}

/// Target batch size: batching the presorted append amortizes page formation while keeping peak
/// memory to a few megabytes regardless of the total row count.
pub const FLUSH_BYTES: usize = 4_194_304;

impl View for FrameBatch {
    type V = Seq<u8>;

    closed spec fn view(&self) -> Seq<u8> {
        self.buf@
    }
}

impl FrameBatch {
    pub fn new() -> (r: Self)
        ensures
            r@ == Seq::<u8>::empty(),
    {
        FrameBatch { buf: Vec::new() }
    }

    /// Adds an encoded row. Hands the batch over, to be appended to the file, once it has reached
    /// [`FLUSH_BYTES`].
    pub fn push(&mut self, row: &Vec<u8>) -> (r: Option<Vec<u8>>)
        ensures
            ({
                let all = old(self)@ + row@;
                if all.len() >= FLUSH_BYTES {
                    r matches Some(batch) && batch@ == all && final(self)@ == Seq::<u8>::empty()
                } else {
                    r is None && final(self)@ == all
                }
            }),
    {
        let mut more = row.clone();
        assert(more@ =~= row@);
        self.buf.append(&mut more);
        if self.buf.len() >= FLUSH_BYTES {
            let mut batch: Vec<u8> = Vec::new();
            std::mem::swap(&mut batch, &mut self.buf);
            Some(batch)
        } else {
            None
        }
    }

    /// The rows not handed over yet, if any.
    pub fn finish(self) -> (r: Option<Vec<u8>>)
        ensures
            r is Some <==> self@.len() > 0,
            r matches Some(batch) ==> batch@ == self@,
    {
        if self.buf.len() > 0 {
            Some(self.buf)
        } else {
            None
        }
    }
}

/// What pushing rows into a batch hands over, end to end, and what it leaves.
pub open spec fn batched(held: Seq<u8>, rows: Seq<Seq<u8>>) -> (Seq<u8>, Seq<u8>)
    decreases rows.len(),
{
    if rows.len() == 0 {
        (Seq::empty(), held)
    } else {
        let (written, kept) = batched(held, rows.drop_last());
        let all = kept + rows.last();
        if all.len() >= FLUSH_BYTES {
            (written + all, Seq::empty())
        } else {
            (written, all)
        }
    }
}

/// Batching loses no row and reorders none: what is handed over, and then what is left, are the
/// rows end to end; and no more than a batch is ever held back.
pub proof fn batching_keeps_the_rows(rows: Seq<Seq<u8>>)
    ensures
        ({
            let (written, kept) = batched(Seq::empty(), rows);
            &&& written + kept == rows.flatten()
            &&& kept.len() < FLUSH_BYTES
        }),
    decreases rows.len(),
{
    if rows.len() > 0 {
        let init = rows.drop_last();
        batching_keeps_the_rows(init);
        let (written, kept) = batched(Seq::empty(), init);
        rows.lemma_flatten_and_flatten_alt_are_equivalent();
        init.lemma_flatten_and_flatten_alt_are_equivalent();
        assert(rows.flatten() == init.flatten() + rows.last());
        assert((written + kept) + rows.last() =~= written + (kept + rows.last()));
        assert(written + (kept + rows.last()) + Seq::<u8>::empty() =~= written + (kept
            + rows.last()));
    } else {
        assert(Seq::<u8>::empty() + Seq::<u8>::empty() =~= rows.flatten());
    }
}

} // verus!
